//! The Paillier cryptosystem with small primes: key generation with
//! g = n + 1, encryption g^m r^n mod n^2 and decryption through
//! L(x) = (x - 1) / n.
use vstd::prelude::*;
use vstd::arithmetic::power::pow;
use crate::euclid::{
    abs, ext_euclid, lemma_ext_euclid_bezout, lemma_ext_euclid_gcd, lemma_ext_euclid_step_bound,
    lemma_trunc_div_rem, trem,
};
use crate::power_mod::{lemma_pow_mod_start, lemma_pow_mod_step, lemma_pow_zero};
use crate::rsa::spec_mod_pow;
use crate::primes::{is_prime, lemma_crt_two_prime_squares, lemma_fermat, lemma_gcd_divides, lemma_lift_to_square, lemma_pow_one_plus};
use crate::euclid;
use vstd::arithmetic::div_mod::{lemma_mod_twice, lemma_mul_mod_noop_general};
use vstd::arithmetic::power::{lemma_pow_adds, lemma_pow_distributes};

verus! {

/// The greatest common divisor by Euclid's algorithm.
pub fn gcd(a: u128, b: u128) -> (r: u128)
    ensures
        r == euclid::gcd(a as nat, b as nat),
{
    let mut a = a;
    let mut b = b;
    let ghost target = euclid::gcd(a as nat, b as nat);
    while b != 0
        invariant
            euclid::gcd(a as nat, b as nat) == target,
        decreases b,
    {
        let temp = b;
        b = a % b;
        a = temp;
    }
    a
}

/// The least common multiple as `a * b / gcd(a, b)`. Both zero would divide
/// by zero, and the product must fit in 128 bits.
pub fn lcm(a: u128, b: u128) -> (r: u128)
    requires
        a != 0 || b != 0,
        a * b <= u128::MAX,
    ensures
        r == (a * b) / (euclid::gcd(a as nat, b as nat) as int),
{
    proof {
        lemma_gcd_positive(a as nat, b as nat);
    }
    a * b / gcd(a, b)
}

/// The gcd of two numbers that are not both zero is positive.
pub proof fn lemma_gcd_positive(a: nat, b: nat)
    requires
        a != 0 || b != 0,
    ensures
        euclid::gcd(a, b) > 0,
    decreases b,
{
    if b != 0 {
        lemma_gcd_positive(b, a % b);
    }
}

/// What `modinv` returns: the Euclidean coefficient of `a` modulo `m`,
/// shifted by `m` and reduced.
pub open spec fn spec_modinv(a: int, m: int) -> int {
    trem(ext_euclid(m, a, 0, 1).1 + m, m)
}

/// The inverse of `a` modulo `m` by the extended Euclidean algorithm.
pub fn modinv(a: u128, m: u128) -> (r: u128)
    requires
        0 < m <= i128::MAX / 2,
        a <= i128::MAX,
    ensures
        r == spec_modinv(a as int, m as int),
        r < m,
        m > 1 && euclid::gcd(m as nat, a as nat) == 1 ==> (a * r) % (m as int) == 1,
{
    let mut mn = m as i128;
    let mut a1 = a as i128;
    let mut x0: i128 = 0;
    let mut x1: i128 = 1;
    let ghost bound = m as int;
    proof {
        let aa = abs(a1 as int);
        assert(abs(1) * abs(mn as int) + abs(0) * aa <= bound) by (nonlinear_arith)
            requires
                mn == bound,
                bound > 0,
        ;
    }
    while a1 != 0
        invariant
            0 < bound <= i128::MAX / 2,
            bound == m,
            ext_euclid(mn as int, a1 as int, x0 as int, x1 as int) == ext_euclid(m as int, a as int, 0, 1),
            0 <= mn <= i128::MAX,
            0 <= a1 <= i128::MAX,
            abs(x1 as int) * abs(mn as int) + abs(x0 as int) * abs(a1 as int) <= bound,
            abs(x0 as int) <= bound,
            mn != 0,
        decreases a1,
    {
        proof {
            lemma_ext_euclid_step_bound(mn as int, a1 as int, x0 as int, x1 as int, bound);
            lemma_trunc_div_rem(mn as int, a1 as int);
        }
        let q = mn / a1;
        let r = mn % a1;
        mn = a1;
        a1 = r;
        let tmp = x0 - q * x1;
        x0 = x1;
        x1 = tmp;
    }
    let ghost t = x0 as int;
    let ghost mm = m as int;
    proof {
        let s = t + mm;
        assert(0 <= s <= 2 * mm);
        lemma_trunc_div_rem(s, mm);
        vstd::arithmetic::div_mod::lemma_mod_bound(s, mm);
        if mm > 1 && euclid::gcd(m as nat, a as nat) == 1 {
            lemma_modinv_correct(a as int, mm);
        }
    }
    ((x0 + m as i128) % m as i128) as u128
}


/// Square-and-multiply modular exponentiation on 128-bit numbers. The
/// modulus must be nonzero and at most 2^64, so that products of residues
/// fit.
pub fn mod_pow(base: u128, exp: u128, modulus: u128) -> (r: u128)
    requires
        0 < modulus <= 0x1_0000_0000_0000_0000,
    ensures
        r == spec_mod_pow(base as int, exp as nat, modulus as int),
{
    let ghost m = modulus as int;
    let ghost e0 = exp as nat;
    let ghost b_in = base as int;
    let mut result: u128 = 1;
    let mut base = base;
    let mut exp = exp;
    base %= modulus;
    proof {
        lemma_pow_mod_start(b_in, e0, m);
    }
    while exp > 0
        invariant
            0 < m <= 0x1_0000_0000_0000_0000,
            m == modulus,
            base < modulus,
            result <= modulus,
            exp > 0 || result < modulus || e0 == 0,
            exp <= e0,
            e0 == 0 ==> result == 1,
            (result * pow(base as int, exp as nat)) % m == pow(b_in, e0) % m,
        decreases exp,
    {
        proof {
            lemma_pow_mod_step(result as int, base as int, exp as nat, m);
            assert(result * base <= 0x1_0000_0000_0000_0000 * 0xffff_ffff_ffff_ffff) by (nonlinear_arith)
                requires
                    result <= 0x1_0000_0000_0000_0000,
                    base <= 0xffff_ffff_ffff_ffff,
            ;
            assert(base * base <= 0xffff_ffff_ffff_ffff * 0xffff_ffff_ffff_ffff) by (nonlinear_arith)
                requires
                    base <= 0xffff_ffff_ffff_ffff,
            ;
        }
        if exp % 2 == 1 {
            result = result * base % modulus;
        }
        base = base * base % modulus;
        exp /= 2;
    }
    proof {
        lemma_pow_zero(base as int);
        assert(result * pow(base as int, 0) == result * 1);
        if e0 > 0 {
            vstd::arithmetic::div_mod::lemma_small_mod(result as nat, m as nat);
        }
    }
    result
}

/// L(x) = (x - 1) / n.
pub fn l_function(x: u128, n: u128) -> (r: u128)
    requires
        x >= 1,
        n > 0,
    ensures
        r == (x - 1) / (n as int),
{
    (x - 1) / n
}

/// A Paillier key: the modulus n, its square, the generator g = n + 1, the
/// Carmichael exponent lambda and mu = L(g^lambda mod n^2)^-1 mod n.
pub struct Paillier {
    pub n: u128,
    pub n_square: u128,
    pub g: u128,
    pub lambda: u128,
    pub mu: u128,
}

/// lambda = lcm(p - 1, q - 1).
pub open spec fn spec_lambda(p: int, q: int) -> int {
    ((p - 1) * (q - 1)) / (euclid::gcd((p - 1) as nat, (q - 1) as nat) as int)
}

/// g^lambda mod n^2 for the key of primes `p` and `q`.
pub open spec fn spec_g_lambda(p: int, q: int) -> int {
    spec_mod_pow(p * q + 1, spec_lambda(p, q) as nat, (p * q) * (p * q))
}

/// Whether `Paillier::keygen` can run on `p` and `q`: the arithmetic stays in
/// range and g^lambda mod n^2 is not zero.
pub open spec fn keygen_ok(p: int, q: int) -> bool {
    &&& p >= 1
    &&& q >= 1
    &&& (p > 1 || q > 1)
    &&& p * q <= 0x1_0000_0000
    &&& spec_g_lambda(p, q) >= 1
}

impl Paillier {
    /// Builds the key for the primes `p` and `q`.
    pub fn keygen(p: u128, q: u128) -> (key: Self)
        requires
            keygen_ok(p as int, q as int),
        ensures
            key.n == p * q,
            key.n_square == (p * q) * (p * q),
            key.g == p * q + 1,
            key.lambda == spec_lambda(p as int, q as int),
            key.mu == spec_modinv((spec_g_lambda(p as int, q as int) - 1) / (p * q), p * q),
    {
        assert(p * q >= 1 && p * q <= 0x1_0000_0000) by (nonlinear_arith)
            requires
                p >= 1,
                q >= 1,
                p * q <= 0x1_0000_0000,
        ;
        let n = p * q;
        assert(n >= 2) by (nonlinear_arith)
            requires
                n == p * q,
                p >= 1,
                q >= 1,
                p > 1 || q > 1,
        ;
        assert(n * n <= 0x1_0000_0000 * 0x1_0000_0000) by (nonlinear_arith)
            requires
                1 <= n <= 0x1_0000_0000,
        ;
        assert(n * n >= 4) by (nonlinear_arith)
            requires
                n >= 2,
        ;
        let n_square = n * n;
        assert((p - 1) * (q - 1) <= p * q) by (nonlinear_arith)
            requires
                p >= 1,
                q >= 1,
        ;
        let lambda = lcm(p - 1, q - 1);
        let g = n + 1;
        let x = mod_pow(g, lambda, n_square);
        let l = l_function(x, n);
        proof {
            lemma_mod_pow_below(g as int, lambda as nat, n_square as int);
            assert(x <= n_square);
            assert((x - 1) / (n as int) <= x) by {
                vstd::arithmetic::div_mod::lemma_div_is_ordered_by_denominator((x - 1) as int, 1, n as int);
            }
        }
        let mu = modinv(l, n);
        Paillier { n, n_square, g, lambda, mu }
    }

    /// Encrypts `m` with randomness `r`: g^m r^n mod n^2.
    pub fn encrypt(&self, m: u128, r: u128) -> (c: u128)
        requires
            0 < self.n_square <= 0x1_0000_0000_0000_0000,
        ensures
            c == (spec_mod_pow(self.g as int, m as nat, self.n_square as int) * spec_mod_pow(
                r as int,
                self.n as nat,
                self.n_square as int,
            )) % (self.n_square as int),
    {
        let gm = mod_pow(self.g, m, self.n_square);
        let rn = mod_pow(r, self.n, self.n_square);
        proof {
            lemma_mod_pow_below(self.g as int, m as nat, self.n_square as int);
            lemma_mod_pow_below(r as int, self.n as nat, self.n_square as int);
            assert(gm * rn <= 0xffff_ffff_ffff_ffff * 0xffff_ffff_ffff_ffff) by (nonlinear_arith)
                requires
                    gm <= 0xffff_ffff_ffff_ffff,
                    rn <= 0xffff_ffff_ffff_ffff,
            ;
        }
        gm * rn % self.n_square
    }

    /// Decrypts `c`: L(c^lambda mod n^2) mu mod n.
    pub fn decrypt(&self, c: u128) -> (m: u128)
        requires
            0 < self.n_square <= 0x1_0000_0000_0000_0000,
            self.n > 0,
            spec_mod_pow(c as int, self.lambda as nat, self.n_square as int) >= 1,
            ((spec_mod_pow(c as int, self.lambda as nat, self.n_square as int) - 1) / (self.n as int))
                * self.mu <= u128::MAX,
        ensures
            m == (((spec_mod_pow(c as int, self.lambda as nat, self.n_square as int) - 1) / (
            self.n as int)) * self.mu) % (self.n as int),
    {
        let x = mod_pow(c, self.lambda, self.n_square);
        let l = l_function(x, self.n);
        l * self.mu % self.n
    }
}

/// `mod_pow` results never exceed the modulus.
pub proof fn lemma_mod_pow_below(b: int, e: nat, m: int)
    requires
        m > 0,
    ensures
        spec_mod_pow(b, e, m) < m || spec_mod_pow(b, e, m) == 1,
        spec_mod_pow(b, e, m) <= m,
        spec_mod_pow(b, e, m) >= 0,
{
    if e > 0 {
        vstd::arithmetic::div_mod::lemma_mod_bound(pow(b, e), m);
    }
}

/// `spec_modinv` is an inverse: for `m > 1` and `a` coprime to `m`,
/// `a * spec_modinv(a, m)` is 1 modulo `m`.
pub proof fn lemma_modinv_correct(a: int, m: int)
    requires
        m > 1,
        a >= 0,
        euclid::gcd(m as nat, a as nat) == 1,
    ensures
        (a * spec_modinv(a, m)) % m == 1,
{
    lemma_ext_euclid_gcd(m, a, 0, 1);
    assert((0 * a - m) % m == 0) by {
        vstd::arithmetic::div_mod::lemma_mod_multiples_basic(-1, m);
    }
    assert((1 * a - a) % m == 0) by {
        vstd::arithmetic::div_mod::lemma_small_mod(0, m as nat);
    }
    lemma_ext_euclid_bezout(m, a, 0, 1, a, m);
    let t = ext_euclid(m, a, 0, 1).1;
    let r = spec_modinv(a, m);
    crate::modular::lemma_trem_congruent(t + m, m);
    // a * r - 1 == a * (r - (t + m)) + a * m + (t * a - 1)
    assert(a * r - 1 == a * (r - (t + m)) + m * a + (t * a - 1)) by (nonlinear_arith);
    crate::modular::lemma_divisible_mul(r - (t + m), a, m);
    assert((a * (r - (t + m))) % m == 0) by {
        vstd::arithmetic::mul::lemma_mul_is_commutative(a, r - (t + m));
    }
    assert((m * a) % m == 0) by {
        vstd::arithmetic::div_mod::lemma_mod_multiples_basic(a, m);
        vstd::arithmetic::mul::lemma_mul_is_commutative(m, a);
    }
    crate::modular::lemma_divisible_sum(a * (r - (t + m)), m * a, m);
    crate::modular::lemma_divisible_sum(a * (r - (t + m)) + m * a, t * a - 1, m);
    vstd::arithmetic::div_mod::lemma_fundamental_div_mod(a * r - 1, m);
    vstd::arithmetic::div_mod::lemma_mod_multiples_vanish((a * r - 1) / m, 1, m);
    vstd::arithmetic::div_mod::lemma_small_mod(1, m as nat);
}

/// The Paillier ciphertext of `m` under modulus `n` with randomness `r`:
/// `g^m r^n mod n^2` with `g = n + 1`.
pub open spec fn spec_encrypt(n: int, m: nat, r: int) -> int {
    (spec_mod_pow(n + 1, m, n * n) * spec_mod_pow(r, n as nat, n * n)) % (n * n)
}

/// What decryption gives: `L(c^lambda mod n^2) mu mod n`.
pub open spec fn spec_decrypt(n: int, lambda: nat, mu: int, c: int) -> int {
    (((spec_mod_pow(c, lambda, n * n) - 1) / n) * mu) % n
}

proof fn lemma_mod_pow_is_pow(b: int, e: nat, m: int)
    requires
        m > 1,
    ensures
        spec_mod_pow(b, e, m) == pow(b, e) % m,
{
    if e == 0 {
        vstd::arithmetic::power::lemma_pow0(b);
        vstd::arithmetic::div_mod::lemma_small_mod(1, m as nat);
    }
}

/// Encryption is homomorphic: the product of two ciphertexts modulo `n^2`
/// is the ciphertext of the sum of the messages with the product of the
/// randomness.
pub proof fn lemma_encrypt_homomorphic(n: int, m1: nat, r1: int, m2: nat, r2: int)
    requires
        n >= 2,
    ensures
        (spec_encrypt(n, m1, r1) * spec_encrypt(n, m2, r2)) % (n * n) == spec_encrypt(n, m1 + m2, r1 * r2),
{
    let nn = n * n;
    assert(nn > 1) by (nonlinear_arith)
        requires
            n >= 2,
            nn == n * n,
    ;
    let g = n + 1;
    lemma_mod_pow_is_pow(g, m1, nn);
    lemma_mod_pow_is_pow(g, m2, nn);
    lemma_mod_pow_is_pow(g, m1 + m2, nn);
    lemma_mod_pow_is_pow(r1, n as nat, nn);
    lemma_mod_pow_is_pow(r2, n as nat, nn);
    lemma_mod_pow_is_pow(r1 * r2, n as nat, nn);
    let a1 = pow(g, m1);
    let a2 = pow(g, m2);
    let b1 = pow(r1, n as nat);
    let b2 = pow(r2, n as nat);
    lemma_pow_adds(g, m1, m2);
    lemma_pow_distributes(r1, r2, n as nat);
    // every factor may be reduced modulo n^2 or not
    lemma_mul_mod_noop_general(a1, b1, nn);
    lemma_mul_mod_noop_general(a2, b2, nn);
    lemma_mul_mod_noop_general(a1 * b1, a2 * b2, nn);
    lemma_mul_mod_noop_general(a1 * a2, b1 * b2, nn);
    lemma_mod_twice(a1 * b1, nn);
    lemma_mod_twice(a2 * b2, nn);
    assert((a1 * b1) * (a2 * b2) == (a1 * a2) * (b1 * b2)) by (nonlinear_arith);
}

/// `lambda` is a positive multiple of both `p - 1` and `q - 1`.
proof fn lemma_lambda_multiple(p: nat, q: nat)
    requires
        p >= 2,
        q >= 2,
    ensures
        spec_lambda(p as int, q as int) >= 1,
        spec_lambda(p as int, q as int) % (p - 1) == 0,
        spec_lambda(p as int, q as int) % (q - 1) == 0,
{
    let a = (p - 1) as nat;
    let b = (q - 1) as nat;
    lemma_gcd_divides(a, b);
    let g = euclid::gcd(a, b);
    vstd::arithmetic::div_mod::lemma_fundamental_div_mod(a as int, g as int);
    vstd::arithmetic::div_mod::lemma_fundamental_div_mod(b as int, g as int);
    let ka = a as int / g as int;
    let kb = b as int / g as int;
    assert(a * b == (a * kb) * g) by (nonlinear_arith)
        requires
            b == g * kb,
    ;
    assert(a * b == (b * ka) * g) by (nonlinear_arith)
        requires
            a == g * ka,
    ;
    vstd::arithmetic::div_mod::lemma_div_multiples_vanish(a * kb, g as int);
    vstd::arithmetic::mul::lemma_mul_is_commutative(g as int, a * kb);
    assert(spec_lambda(p as int, q as int) == a * kb);
    assert(spec_lambda(p as int, q as int) == b * ka) by {
        vstd::arithmetic::div_mod::lemma_div_multiples_vanish(b * ka, g as int);
        vstd::arithmetic::mul::lemma_mul_is_commutative(g as int, b * ka);
    }
    assert(kb >= 1) by (nonlinear_arith)
        requires
            b == g * kb,
            b >= 1,
            g >= 1,
    ;
    assert(a * kb >= 1) by (nonlinear_arith)
        requires
            a >= 1,
            kb >= 1,
    ;
    vstd::arithmetic::div_mod::lemma_mod_multiples_basic(kb, a as int);
    vstd::arithmetic::mul::lemma_mul_is_commutative(a as int, kb);
    vstd::arithmetic::div_mod::lemma_mod_multiples_basic(ka, b as int);
    vstd::arithmetic::mul::lemma_mul_is_commutative(b as int, ka);
}

/// `x^k` is 1 modulo `m` when `x` is.
proof fn lemma_pow_of_one(x: int, k: nat, m: int)
    requires
        m > 1,
        x % m == 1,
    ensures
        pow(x, k) % m == 1,
{
    vstd::arithmetic::power::lemma_pow_mod_noop(x, k, m);
    vstd::arithmetic::power::lemma1_pow(k);
    vstd::arithmetic::div_mod::lemma_small_mod(1, m as nat);
}

/// `r^(n lambda)` is 1 modulo `p^2` for a prime `p` of `n` not dividing `r`.
proof fn lemma_randomness_vanishes_mod(r: int, p: nat, q: nat)
    requires
        is_prime(p),
        q >= 2,
        r % (p as int) != 0,
        spec_lambda(p as int, q as int) % (p - 1) == 0,
        spec_lambda(p as int, q as int) >= 1,
    ensures
        pow(r, ((p * q) * spec_lambda(p as int, q as int)) as nat) % ((p * p) as int) == 1,
{
    let pi = p as int;
    let lam = spec_lambda(p as int, q as int);
    vstd::arithmetic::div_mod::lemma_fundamental_div_mod(lam, (p - 1) as int);
    let k = lam / ((p - 1) as int);
    assert(k >= 0) by {
        vstd::arithmetic::div_mod::lemma_div_pos_is_pos(lam, (p - 1) as int);
    }
    let kn = k as nat;
    let e = ((p * q) * lam) as nat;
    assert(e == (((p - 1) as nat * p) * (q * kn))) by (nonlinear_arith)
        requires
            lam == (p - 1) * k,
            kn == k,
            e == (p * q) * lam,
    ;
    lemma_fermat(r, p);
    let x = pow(r, (p - 1) as nat);
    lemma_lift_to_square(x, p);
    let y = pow(x, p);
    assert((p * p) > 1) by (nonlinear_arith)
        requires
            p > 1,
    ;
    lemma_pow_of_one(y, q * kn, (p * p) as int);
    vstd::arithmetic::power::lemma_pow_multiplies(r, (p - 1) as nat, p);
    vstd::arithmetic::power::lemma_pow_multiplies(r, ((p - 1) as nat * p) as nat, q * kn);
}

/// `(n + 1)^x` is `1 + (x mod n) n` modulo `n^2`.
proof fn lemma_generator_power(n: int, x: nat)
    requires
        n >= 2,
    ensures
        pow(n + 1, x) % (n * n) == 1 + ((x as int) % n) * n,
{
    let nn = n * n;
    assert(nn > 0) by (nonlinear_arith)
        requires
            n >= 2,
            nn == n * n,
    ;
    assert((n * n) % nn == 0) by {
        vstd::arithmetic::div_mod::lemma_mod_self_0(nn);
    }
    lemma_pow_one_plus(n, x, nn);
    assert(pow(1 + n, x) == pow(n + 1, x));
    vstd::arithmetic::div_mod::lemma_fundamental_div_mod(x as int, n);
    let h = (x as int) / n;
    let t = (x as int) % n;
    vstd::arithmetic::div_mod::lemma_mod_bound(x as int, n);
    assert(1 + x * n == nn * h + (1 + t * n)) by (nonlinear_arith)
        requires
            x == n * h + t,
            nn == n * n,
    ;
    vstd::arithmetic::div_mod::lemma_mod_multiples_vanish(h, 1 + t * n, nn);
    assert(0 <= 1 + t * n < nn) by (nonlinear_arith)
        requires
            0 <= t < n,
            nn == n * n,
            n >= 2,
    ;
    vstd::arithmetic::div_mod::lemma_small_mod((1 + t * n) as nat, nn as nat);
}

/// Decryption undoes encryption. For two different primes `p` and `q`
/// whose product shares no factor with `lambda` (so that `mu` exists), a
/// message below `n = p q` and randomness that neither prime divides, the
/// key `keygen` builds decrypts the ciphertext `encrypt` makes back to the
/// message.
pub proof fn lemma_decrypt_encrypt(p: nat, q: nat, m: nat, r: nat)
    requires
        is_prime(p),
        is_prime(q),
        p != q,
        m < p * q,
        (r as int) % (p as int) != 0,
        (r as int) % (q as int) != 0,
        euclid::gcd(p * q, (spec_lambda(p as int, q as int) % ((p * q) as int)) as nat) == 1,
    ensures
        spec_decrypt(
            (p * q) as int,
            spec_lambda(p as int, q as int) as nat,
            spec_modinv((spec_g_lambda(p as int, q as int) - 1) / ((p * q) as int), (p * q) as int),
            spec_encrypt((p * q) as int, m, r as int),
        ) == m,
{
    let n = (p * q) as int;
    let nn = n * n;
    let lam = spec_lambda(p as int, q as int);
    assert(n >= 6) by (nonlinear_arith)
        requires
            p >= 2,
            q >= 2,
            p != q,
            n == p * q,
    ;
    assert(nn > 1) by (nonlinear_arith)
        requires
            n >= 6,
            nn == n * n,
    ;
    lemma_lambda_multiple(p, q);
    let lamn = lam as nat;
    // r^(n lambda) == 1 (mod n^2)
    lemma_randomness_vanishes_mod(r as int, p, q);
    assert(spec_lambda(q as int, p as int) == lam) by {
        assert((q - 1) * (p - 1) == (p - 1) * (q - 1)) by (nonlinear_arith);
        crate::primes::lemma_gcd_symmetric((p - 1) as nat, (q - 1) as nat);
    }
    lemma_randomness_vanishes_mod(r as int, q, p);
    assert((q * p) * lam == (p * q) * lam) by (nonlinear_arith);
    let ern = pow(r as int, (n * lam) as nat);
    assert(p * p > 1 && q * q > 1) by (nonlinear_arith)
        requires
            p >= 2,
            q >= 2,
    ;
    vstd::arithmetic::div_mod::lemma_small_mod(1, p * p);
    vstd::arithmetic::div_mod::lemma_small_mod(1, q * q);
    assert(ern % ((p * p) as int) == 1);
    assert(ern % ((q * q) as int) == 1);
    lemma_crt_two_prime_squares(ern, 1, p, q);
    vstd::arithmetic::div_mod::lemma_small_mod(1, nn as nat);
    assert(ern % nn == 1);
    // the ciphertext to the lambda
    let g = n + 1;
    let c = spec_encrypt(n, m, r as int);
    lemma_mod_pow_is_pow(g, m, nn);
    lemma_mod_pow_is_pow(r as int, n as nat, nn);
    lemma_mod_pow_is_pow(c, lamn, nn);
    let gm = pow(g, m);
    let rn = pow(r as int, n as nat);
    lemma_mul_mod_noop_general(gm, rn, nn);
    assert(c == (gm * rn) % nn);
    vstd::arithmetic::power::lemma_pow_mod_noop(gm * rn, lamn, nn);
    lemma_pow_distributes(gm, rn, lamn);
    vstd::arithmetic::power::lemma_pow_multiplies(g, m, lamn);
    vstd::arithmetic::power::lemma_pow_multiplies(r as int, n as nat, lamn);
    lemma_generator_power(n, m * lamn);
    let t = ((m * lamn) as int) % n;
    lemma_mul_mod_noop_general(pow(g, m * lamn), pow(r as int, (n * lam) as nat), nn);
    assert(spec_mod_pow(c, lamn, nn) == 1 + t * n) by {
        assert(pow(c, lamn) % nn == (pow(g, m * lamn) * pow(r as int, (n * lam) as nat)) % nn);
        assert(((1 + t * n) * 1) % nn == 1 + t * n) by {
            vstd::arithmetic::div_mod::lemma_mod_bound(((m * lamn) as int), n);
            assert(0 <= 1 + t * n < nn) by (nonlinear_arith)
                requires
                    0 <= t < n,
                    nn == n * n,
                    n >= 2,
            ;
            vstd::arithmetic::div_mod::lemma_small_mod((1 + t * n) as nat, nn as nat);
        }
    }
    assert((1 + t * n - 1) / n == t) by {
        vstd::arithmetic::div_mod::lemma_div_multiples_vanish(t, n);
        vstd::arithmetic::mul::lemma_mul_is_commutative(t, n);
    }
    // the key: L(g^lambda mod n^2) == lambda mod n, and mu inverts it
    lemma_mod_pow_is_pow(g, lamn, nn);
    lemma_generator_power(n, lamn);
    let lk = lam % n;
    assert(spec_g_lambda(p as int, q as int) == 1 + lk * n);
    assert((1 + lk * n - 1) / n == lk) by {
        vstd::arithmetic::div_mod::lemma_div_multiples_vanish(lk, n);
        vstd::arithmetic::mul::lemma_mul_is_commutative(lk, n);
    }
    let mu = spec_modinv(lk, n);
    vstd::arithmetic::div_mod::lemma_mod_bound(lam, n);
    lemma_modinv_correct(lk, n);
    // (t mu) mod n == m (lambda mu) mod n == m
    lemma_mul_mod_noop_general((m * lamn) as int, mu, n);
    lemma_mul_mod_noop_general(lam, mu, n);
    assert((m * lamn) * mu == m * (lam * mu)) by (nonlinear_arith)
        requires
            lamn == lam,
    ;
    lemma_mul_mod_noop_general(m as int, lam * mu, n);
    assert((lam * mu) % n == 1) by {
        lemma_mul_mod_noop_general(lam, mu, n);
        vstd::arithmetic::div_mod::lemma_mod_twice(lam, n);
        vstd::arithmetic::div_mod::lemma_small_mod((lk * mu % n) as nat, n as nat);
    }
    vstd::arithmetic::div_mod::lemma_small_mod(m, n as nat);
    vstd::arithmetic::div_mod::lemma_small_mod(1, n as nat);
}

/// Encryption sees the message only modulo `n`: `g^n` is 1 modulo `n^2`,
/// so a message and the message less `n` encrypt alike.
proof fn lemma_encrypt_wraps(n: int, s: nat, r: int)
    requires
        n >= 2,
        s >= n,
    ensures
        spec_encrypt(n, s, r) == spec_encrypt(n, (s - n) as nat, r),
{
    let nn = n * n;
    assert(nn > 1) by (nonlinear_arith)
        requires
            n >= 2,
            nn == n * n,
    ;
    let g = n + 1;
    let t = (s - n) as nat;
    lemma_mod_pow_is_pow(g, s, nn);
    lemma_mod_pow_is_pow(g, t, nn);
    lemma_pow_adds(g, t, n as nat);
    assert((n * n) % nn == 0) by {
        vstd::arithmetic::div_mod::lemma_mod_self_0(nn);
    }
    lemma_pow_one_plus(n, n as nat, nn);
    assert((1 + n * n) % nn == 1) by {
        vstd::arithmetic::div_mod::lemma_mod_add_multiples_vanish(1, nn);
        vstd::arithmetic::div_mod::lemma_small_mod(1, nn as nat);
    }
    lemma_mul_mod_noop_general(pow(g, t), pow(g, n as nat), nn);
    lemma_mod_twice(pow(g, t), nn);
    assert(pow(g, s) % nn == pow(g, t) % nn);
}

/// Adding under encryption: for messages below `n`, multiplying their
/// ciphertexts modulo `n^2` and decrypting gives their sum modulo `n`, when
/// the key and randomness meet [`lemma_decrypt_encrypt`]'s terms.
pub proof fn lemma_add_under_encryption(p: nat, q: nat, m1: nat, r1: nat, m2: nat, r2: nat)
    requires
        is_prime(p),
        is_prime(q),
        p != q,
        m1 < p * q,
        m2 < p * q,
        (r1 as int) % (p as int) != 0,
        (r1 as int) % (q as int) != 0,
        (r2 as int) % (p as int) != 0,
        (r2 as int) % (q as int) != 0,
        euclid::gcd(p * q, (spec_lambda(p as int, q as int) % ((p * q) as int)) as nat) == 1,
    ensures
        ({
            let n = (p * q) as int;
            spec_decrypt(
                n,
                spec_lambda(p as int, q as int) as nat,
                spec_modinv((spec_g_lambda(p as int, q as int) - 1) / n, n),
                (spec_encrypt(n, m1, r1 as int) * spec_encrypt(n, m2, r2 as int)) % (n * n),
            ) == ((m1 + m2) as int) % n
        }),
{
    let n = (p * q) as int;
    assert(n >= 2) by (nonlinear_arith)
        requires
            p >= 2,
            q >= 2,
            n == p * q,
    ;
    lemma_encrypt_homomorphic(n, m1, r1 as int, m2, r2 as int);
    if ((r1 * r2) as int) % (p as int) == 0 {
        crate::primes::lemma_euclid(r1 as int, r2 as int, p);
    }
    if ((r1 * r2) as int) % (q as int) == 0 {
        crate::primes::lemma_euclid(r1 as int, r2 as int, q);
    }
    if m1 + m2 < n {
        vstd::arithmetic::div_mod::lemma_small_mod((m1 + m2) as nat, n as nat);
        lemma_decrypt_encrypt(p, q, m1 + m2, r1 * r2);
    } else {
        let t = (m1 + m2 - n) as nat;
        lemma_encrypt_wraps(n, m1 + m2, (r1 * r2) as int);
        vstd::arithmetic::div_mod::lemma_mod_sub_multiples_vanish((m1 + m2) as int, n);
        vstd::arithmetic::div_mod::lemma_small_mod(t, n as nat);
        lemma_decrypt_encrypt(p, q, t, r1 * r2);
    }
}

} // verus!
