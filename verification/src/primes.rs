//! Number theory behind the RSA keys: primes, Euclid's lemma, binomial
//! coefficients, and Fermat's little theorem, proved from the definitions.
use vstd::prelude::*;
use vstd::arithmetic::div_mod::*;
use vstd::arithmetic::mul::*;
use vstd::arithmetic::power::*;
use crate::euclid::{ext_euclid, gcd, lemma_ext_euclid_bezout, lemma_ext_euclid_gcd};

verus! {

/// `p` is a prime: above 1 and divisible by no number strictly between 1
/// and itself.
pub open spec fn is_prime(p: nat) -> bool {
    &&& p > 1
    &&& forall|d: nat| 1 < d < p ==> #[trigger] (p % d) != 0
}

/// The greatest common divisor divides both numbers.
pub proof fn lemma_gcd_divides(a: nat, b: nat)
    requires
        a > 0 || b > 0,
    ensures
        gcd(a, b) > 0,
        a % gcd(a, b) == 0,
        b % gcd(a, b) == 0,
    decreases b,
{
    if b == 0 {
        lemma_mod_self_0(a as int);
        lemma_small_mod(0, a);
    } else {
        lemma_mod_bound(a as int, b as int);
        lemma_gcd_divides(b, a % b);
        let g = gcd(b, a % b);
        assert(gcd(a, b) == g);
        // a = b * (a / b) + a % b, both parts divisible by g
        lemma_fundamental_div_mod(a as int, b as int);
        lemma_fundamental_div_mod(b as int, g as int);
        lemma_fundamental_div_mod((a % b) as int, g as int);
        let kb = b as int / g as int;
        let kr = (a % b) as int / g as int;
        let q = a as int / b as int;
        assert(a as int == g * (kb * q + kr)) by (nonlinear_arith)
            requires
                a as int == b * q + (a % b) as int,
                b as int == g * kb,
                (a % b) as int == g * kr,
        ;
        lemma_mod_multiples_basic(kb * q + kr, g as int);
        lemma_mul_is_commutative(g as int, kb * q + kr);
    }
}

/// A number strictly between 0 and a prime shares no factor with it.
pub proof fn lemma_coprime_to_prime(a: nat, p: nat)
    requires
        is_prime(p),
        0 < a < p,
    ensures
        gcd(p, a) == 1,
{
    lemma_gcd_divides(p, a);
    let g = gcd(p, a);
    lemma_mod_is_zero(a, g);
    assert(g <= a);
    if g != 1 {
        assert(1 < g < p);
        assert(p % g != 0);
    }
}

/// Euclid's lemma: a prime that divides a product divides one of the
/// factors.
pub proof fn lemma_euclid(a: int, b: int, p: nat)
    requires
        is_prime(p),
        (a * b) % (p as int) == 0,
    ensures
        a % (p as int) == 0 || b % (p as int) == 0,
{
    let pi = p as int;
    let r = a % pi;
    if r != 0 {
        lemma_mod_bound(a, pi);
        lemma_coprime_to_prime(r as nat, p);
        assert(((0 * r) - pi) % pi == 0) by {
            lemma_mod_self_0(pi);
            assert((0 * r) - pi == -1 * pi);
            lemma_mod_multiples_basic(-1, pi);
        }
        assert((1 * r - r) % pi == 0) by {
            lemma_small_mod(0, p);
        }
        lemma_ext_euclid_bezout(pi, r, 0, 1, r, pi);
        lemma_ext_euclid_gcd(pi, r, 0, 1);
        let t = ext_euclid(pi, r, 0, 1).1;
        // t * r == 1 (mod p)
        assert((t * r) % pi == 1) by {
            lemma_add_mod_noop(t * r - 1, 1, pi);
            lemma_small_mod(1, p);
        }
        // r * b == 0 (mod p)
        lemma_mul_mod_noop_left(a, b, pi);
        assert((r * b) % pi == 0);
        // t * (r * b) == 0 (mod p)
        lemma_mul_mod_noop_right(t, r * b, pi);
        lemma_small_mod(0, p);
        assert((t * (r * b)) % pi == 0);
        // (t * r) * b == b (mod p)
        lemma_mul_is_associative(t, r, b);
        lemma_mul_mod_noop_left(t * r, b, pi);
        assert((1 * b) % pi == b % pi);
    }
}

/// The binomial coefficient `n` choose `k`, by Pascal's rule.
pub open spec fn binom(n: nat, k: nat) -> nat
    decreases n,
{
    if k == 0 {
        1
    } else if n == 0 {
        0
    } else {
        binom((n - 1) as nat, (k - 1) as nat) + binom((n - 1) as nat, k)
    }
}

pub proof fn lemma_binom_above(n: nat, k: nat)
    requires
        k > n,
    ensures
        binom(n, k) == 0,
    decreases n,
{
    if n > 0 {
        lemma_binom_above((n - 1) as nat, (k - 1) as nat);
        lemma_binom_above((n - 1) as nat, k);
    }
}

pub proof fn lemma_binom_all(n: nat)
    ensures
        binom(n, n) == 1,
    decreases n,
{
    if n > 0 {
        lemma_binom_all((n - 1) as nat);
        lemma_binom_above((n - 1) as nat, n);
    }
}

/// `k * C(n, k) == n * C(n - 1, k - 1)`.
pub proof fn lemma_binom_absorb(n: nat, k: nat)
    requires
        n >= 1,
        k >= 1,
    ensures
        k * binom(n, k) == n * binom((n - 1) as nat, (k - 1) as nat),
    decreases n,
{
    let a = binom((n - 1) as nat, (k - 1) as nat);
    let b = binom((n - 1) as nat, k);
    assert(binom(n, k) == a + b);
    if n == 1 {
        if k == 1 {
            assert(binom(0, 0) == 1);
            assert(binom(0, 1) == 0);
            assert(binom(1, 1) == 1);
            assert(k * binom(n, k) == 1);
            assert(n * binom((n - 1) as nat, (k - 1) as nat) == 1);
        } else {
            lemma_binom_above(0, (k - 1) as nat);
            lemma_binom_above(0, k);
            lemma_binom_above(1, k);
            assert(binom(n, k) == 0);
            assert(binom((n - 1) as nat, (k - 1) as nat) == 0);
            lemma_mul_by_zero_is_zero(k as int);
            lemma_mul_by_zero_is_zero(n as int);
            assert(k * binom(n, k) == 0);
            assert(n * binom((n - 1) as nat, (k - 1) as nat) == 0);
        }
    } else {
        // k * b == (n - 1) * C(n - 2, k - 1)
        lemma_binom_absorb((n - 1) as nat, k);
        let c = binom((n - 2) as nat, (k - 1) as nat);
        assert(k * b == (n - 1) * c);
        if k == 1 {
            assert(a == 1);
            assert(b == c * (n - 1)) by (nonlinear_arith)
                requires
                    k == 1,
                    k * b == (n - 1) * c,
            ;
            assert(c == binom((n - 2) as nat, 0));
            assert(binom((n - 1) as nat, 1) == binom((n - 2) as nat, 0) + binom((n - 2) as nat, 1));
            assert(k * binom(n, k) == a + b);
            assert(n * a == n);
            // b = C(n-1, 1) = n - 1
            lemma_binom_one((n - 1) as nat);
            assert(k * binom(n, k) == n * binom((n - 1) as nat, (k - 1) as nat));
        } else {
            // (k - 1) * a == (n - 1) * C(n - 2, k - 2)
            lemma_binom_absorb((n - 1) as nat, (k - 1) as nat);
            let d = binom((n - 2) as nat, (k - 2) as nat);
            assert((k - 1) * a == (n - 1) * d);
            assert(a == d + c);
            assert(k * (a + b) == n * a) by (nonlinear_arith)
                requires
                    (k - 1) * a == (n - 1) * d,
                    k * b == (n - 1) * c,
                    a == d + c,
            ;
            assert(k * binom(n, k) == n * binom((n - 1) as nat, (k - 1) as nat));
        }
    }
}

proof fn lemma_binom_one(n: nat)
    ensures
        binom(n, 1) == n,
    decreases n,
{
    if n > 0 {
        lemma_binom_one((n - 1) as nat);
        assert(binom((n - 1) as nat, 0) == 1);
    }
}

/// A prime divides every binomial coefficient `C(p, k)` with `0 < k < p`.
proof fn lemma_prime_divides_binom(p: nat, k: nat)
    requires
        is_prime(p),
        0 < k < p,
    ensures
        binom(p, k) % p == 0,
{
    lemma_binom_absorb(p, k);
    let c = binom((p - 1) as nat, (k - 1) as nat);
    assert((k * binom(p, k)) as int % (p as int) == 0) by {
        lemma_mod_multiples_basic(c as int, p as int);
        lemma_mul_is_commutative(p as int, c as int);
    }
    lemma_euclid(k as int, binom(p, k) as int, p);
    lemma_small_mod(k, p);
}

/// The first `j` terms `C(n, i) * a^i` of the binomial expansion of
/// `(a + 1)^n`.
pub open spec fn binom_sum(a: int, n: nat, j: nat) -> int
    decreases j,
{
    if j == 0 {
        0
    } else {
        binom_sum(a, n, (j - 1) as nat) + binom(n, (j - 1) as nat) * pow(a, (j - 1) as nat)
    }
}

proof fn lemma_binom_sum_step(a: int, n: nat, j: nat)
    ensures
        binom_sum(a, n + 1, j + 1) == binom_sum(a, n, j + 1) + a * binom_sum(a, n, j),
    decreases j,
{
    if j == 0 {
        lemma_pow0(a);
        assert(binom_sum(a, n + 1, 0) == 0);
        assert(binom_sum(a, n, 0) == 0);
        assert(binom((n + 1) as nat, 0) == 1);
        assert(binom(n, 0) == 1);
        assert(binom_sum(a, n + 1, 1) == 1);
        assert(binom_sum(a, n, 1) == 1);
    } else {
        lemma_binom_sum_step(a, n, (j - 1) as nat);
        let x = pow(a, (j - 1) as nat);
        assert(pow(a, j) == a * x) by {
            lemma_pow_adds(a, 1, (j - 1) as nat);
            lemma_pow1(a);
        }
        assert(binom((n + 1) as nat, j) == binom(n, (j - 1) as nat) + binom(n, j));
        let s1 = binom_sum(a, n + 1, j);
        let s0 = binom_sum(a, n, j);
        let sm = binom_sum(a, n, (j - 1) as nat);
        assert(binom_sum(a, n + 1, j + 1) == s1 + binom((n + 1) as nat, j) * pow(a, j));
        assert(binom_sum(a, n, j + 1) == s0 + binom(n, j) * pow(a, j));
        assert(s0 == sm + binom(n, (j - 1) as nat) * x);
        assert(s1 == s0 + a * sm);
        assert(s1 + (binom(n, (j - 1) as nat) + binom(n, j)) * (a * x) == (s0 + binom(n, j) * (a * x)) + a * (sm
            + binom(n, (j - 1) as nat) * x)) by (nonlinear_arith)
            requires
                s1 == s0 + a * sm,
        ;
    }
}

/// The binomial theorem at `b = 1`: `(a + 1)^n` is the sum of
/// `C(n, i) * a^i` over `i <= n`.
pub proof fn lemma_binomial(a: int, n: nat)
    ensures
        binom_sum(a, n, n + 1) == pow(a + 1, n),
    decreases n,
{
    if n == 0 {
        lemma_pow0(a);
        lemma_pow0(a + 1);
        assert(binom_sum(a, 0, 0) == 0);
        assert(binom(0, 0) == 1);
        assert(binom_sum(a, 0, 1) == 1);
    } else {
        let m = (n - 1) as nat;
        lemma_binomial(a, m);
        lemma_binom_sum_step(a, m, n);
        lemma_binom_above(m, n);
        assert(binom_sum(a, m, n + 1) == binom_sum(a, m, n));
        assert(pow(a + 1, n) == (a + 1) * pow(a + 1, m)) by {
            lemma_pow_adds(a + 1, 1, m);
            lemma_pow1(a + 1);
        }
        let s = binom_sum(a, m, n);
        assert(s + a * s == (a + 1) * s) by (nonlinear_arith);
    }
}

/// The middle terms of `(a + 1)^p` vanish modulo `p`: the first `j` terms,
/// for `1 <= j <= p`, are 1 modulo `p`.
proof fn lemma_binom_sum_mod_prime(a: int, p: nat, j: nat)
    requires
        is_prime(p),
        1 <= j <= p,
    ensures
        binom_sum(a, p, j) % (p as int) == 1,
    decreases j,
{
    let pi = p as int;
    if j == 1 {
        lemma_pow0(a);
        assert(binom_sum(a, p, 0) == 0);
        assert(binom(p, 0) == 1);
        assert(binom_sum(a, p, 1) == 1);
        lemma_small_mod(1, p);
    } else {
        let k = (j - 1) as nat;
        lemma_binom_sum_mod_prime(a, p, k);
        lemma_prime_divides_binom(p, k);
        let t = binom(p, k) * pow(a, k);
        assert(t % pi == 0) by {
            lemma_fundamental_div_mod(binom(p, k) as int, pi);
            let c = binom(p, k) as int / pi;
            assert(t == pi * (c * pow(a, k))) by (nonlinear_arith)
                requires
                    binom(p, k) as int == pi * c,
                    t == binom(p, k) * pow(a, k),
            ;
            lemma_mod_multiples_basic(c * pow(a, k), pi);
            lemma_mul_is_commutative(pi, c * pow(a, k));
        }
        lemma_add_mod_noop(binom_sum(a, p, k), t, pi);
        lemma_small_mod(1, p);
    }
}

/// Fermat, first form: `a^p` and `a` agree modulo a prime `p`.
pub proof fn lemma_pow_prime_congruent(a: nat, p: nat)
    requires
        is_prime(p),
    ensures
        pow(a as int, p) % (p as int) == (a as int) % (p as int),
    decreases a,
{
    let pi = p as int;
    if a == 0 {
        lemma0_pow(p);
    } else {
        let b = (a - 1) as nat;
        lemma_pow_prime_congruent(b, p);
        lemma_binomial(b as int, p);
        lemma_binom_all(p);
        assert(binom_sum(b as int, p, p + 1) == binom_sum(b as int, p, p) + binom(p, p) * pow(b as int, p));
        assert(binom(p, p) * pow(b as int, p) == pow(b as int, p)) by (nonlinear_arith)
            requires
                binom(p, p) == 1,
        ;
        lemma_binom_sum_mod_prime(b as int, p, p);
        // (b + 1)^p == (1 + b^p) (mod p) == (1 + b) (mod p)
        lemma_add_mod_noop(binom_sum(b as int, p, p), pow(b as int, p), pi);
        lemma_add_mod_noop(1, b as int, pi);
        lemma_small_mod(1, p);
    }
}

/// Fermat's little theorem: for a prime `p` not dividing `a`,
/// `a^(p-1)` is 1 modulo `p`.
pub proof fn lemma_fermat(a: int, p: nat)
    requires
        is_prime(p),
        a % (p as int) != 0,
    ensures
        pow(a, (p - 1) as nat) % (p as int) == 1,
{
    let pi = p as int;
    let r = a % pi;
    lemma_mod_bound(a, pi);
    lemma_pow_prime_congruent(r as nat, p);
    let x = pow(r, (p - 1) as nat);
    assert(pow(r, p) == r * x) by {
        lemma_pow_adds(r, 1, (p - 1) as nat);
        lemma_pow1(r);
    }
    // r * (x - 1) == 0 (mod p)
    lemma_small_mod(r as nat, p);
    assert((r * (x - 1)) % pi == 0) by {
        assert(r * (x - 1) == r * x - r) by (nonlinear_arith);
        lemma_sub_mod_noop(r * x, r, pi);
        lemma_small_mod(0, p);
    }
    lemma_euclid(r, x - 1, p);
    assert((x - 1) % pi == 0);
    assert(x % pi == 1) by {
        lemma_add_mod_noop(x - 1, 1, pi);
        lemma_small_mod(1, p);
    }
    lemma_pow_mod_noop(a, (p - 1) as nat, pi);
}

/// Raising to `1 + k (p - 1)` gives back the residue modulo a prime `p`,
/// whether or not `p` divides the base.
pub proof fn lemma_pow_one_plus_multiple(m: int, p: nat, k: nat)
    requires
        is_prime(p),
    ensures
        pow(m, 1 + k * (p - 1) as nat) % (p as int) == m % (p as int),
{
    let pi = p as int;
    let e: nat = k * (p - 1) as nat;
    assert(pow(m, 1 + e) == m * pow(m, e)) by {
        lemma_pow_adds(m, 1, e);
        lemma_pow1(m);
    }
    lemma_mul_mod_noop_left(m, pow(m, e), pi);
    if m % pi == 0 {
        lemma_small_mod(0, p);
        assert((0 * pow(m, e)) == 0);
    } else {
        lemma_fermat(m, p);
        lemma_pow_multiplies(m, (p - 1) as nat, k);
        assert(pow(m, e) == pow(pow(m, (p - 1) as nat), k)) by {
            lemma_mul_is_commutative(k as int, (p - 1) as int);
        }
        lemma_pow_mod_noop(pow(m, (p - 1) as nat), k, pi);
        lemma1_pow(k);
        lemma_small_mod(1, p);
        assert(pow(m, e) % pi == 1);
        lemma_mul_mod_noop_right(m % pi, pow(m, e), pi);
        lemma_mod_twice(m, pi);
    }
}

/// Two different primes are coprime: neither divides the other.
proof fn lemma_distinct_primes(p: nat, q: nat)
    requires
        is_prime(p),
        is_prime(q),
        p != q,
    ensures
        (p as int) % (q as int) != 0,
{
    if (p as int) % (q as int) == 0 {
        lemma_mod_is_zero(p, q);
        assert(1 < q < p);
        assert(p % q != 0);
    }
}

/// Agreeing modulo two different primes means agreeing modulo their
/// product.
pub proof fn lemma_crt_two_primes(x: int, y: int, p: nat, q: nat)
    requires
        is_prime(p),
        is_prime(q),
        p != q,
        x % (p as int) == y % (p as int),
        x % (q as int) == y % (q as int),
    ensures
        x % ((p * q) as int) == y % ((p * q) as int),
{
    let pi = p as int;
    let qi = q as int;
    lemma_sub_mod_noop(x, y, pi);
    lemma_small_mod(0, p);
    assert((x - y) % pi == 0) by {
        lemma_mod_self_0(pi);
        lemma_mod_bound(x, pi);
        lemma_mod_bound(y, pi);
        assert((x % pi - y % pi) == 0);
    }
    lemma_fundamental_div_mod(x - y, pi);
    let t = (x - y) / pi;
    assert(x - y == pi * t);
    assert((pi * t) % qi == 0) by {
        lemma_sub_mod_noop(x, y, qi);
        lemma_small_mod(0, q);
        lemma_mod_bound(x, qi);
        lemma_mod_bound(y, qi);
        assert((x % qi - y % qi) == 0);
    }
    lemma_euclid(pi, t, q);
    lemma_distinct_primes(p, q);
    lemma_fundamental_div_mod(t, qi);
    let s = t / qi;
    assert(x - y == (pi * qi) * s) by (nonlinear_arith)
        requires
            x - y == pi * t,
            t == qi * s,
    ;
    lemma_mul_strictly_positive(pi, qi);
    lemma_mod_multiples_vanish(s, y, pi * qi);
    assert(x == (pi * qi) * s + y);
    lemma_mul_is_commutative(pi * qi, s);
    assert(x == s * (pi * qi) + y);
}

/// `(1 + c)^j` is `1 + j c` modulo any `m` that divides `c^2`.
pub proof fn lemma_pow_one_plus(c: int, j: nat, m: int)
    requires
        m > 0,
        (c * c) % m == 0,
    ensures
        pow(1 + c, j) % m == (1 + j * c) % m,
    decreases j,
{
    if j == 0 {
        lemma_pow0(1 + c);
    } else {
        let i = (j - 1) as nat;
        lemma_pow_one_plus(c, i, m);
        let x = pow(1 + c, i);
        assert(pow(1 + c, j) == (1 + c) * x) by {
            lemma_pow_adds(1 + c, 1, i);
            lemma_pow1(1 + c);
        }
        // x == 1 + i c + m s
        lemma_fundamental_div_mod(x, m);
        lemma_fundamental_div_mod(1 + i * c, m);
        let s = x / m - (1 + i * c) / m;
        assert(x == 1 + i * c + m * s) by (nonlinear_arith)
            requires
                x == m * (x / m) + x % m,
                1 + i * c == m * ((1 + i * c) / m) + (1 + i * c) % m,
                x % m == (1 + i * c) % m,
                s == x / m - (1 + i * c) / m,
        ;
        lemma_fundamental_div_mod(c * c, m);
        let w = (c * c) / m;
        assert((1 + c) * x == (1 + j * c) + m * (i * w + (1 + c) * s)) by (nonlinear_arith)
            requires
                x == 1 + i * c + m * s,
                c * c == m * w,
                j == i + 1,
        ;
        lemma_mod_multiples_vanish(i * w + (1 + c) * s, 1 + j * c, m);
    }
}

/// Lifting: if `x` is 1 modulo a prime `p`, then `x^p` is 1 modulo `p^2`.
pub proof fn lemma_lift_to_square(x: int, p: nat)
    requires
        is_prime(p),
        x % (p as int) == 1,
    ensures
        pow(x, p) % ((p * p) as int) == 1,
{
    let pi = p as int;
    let m = pi * pi;
    lemma_mul_strictly_positive(pi, pi);
    lemma_fundamental_div_mod(x, pi);
    let k = x / pi;
    let c = k * pi;
    assert(x == 1 + c) by {
        lemma_mul_is_commutative(pi, k);
    }
    assert((c * c) % m == 0) by {
        assert(c * c == m * (k * k)) by (nonlinear_arith)
            requires
                c == k * pi,
                m == pi * pi,
        ;
        lemma_mod_multiples_basic(k * k, m);
        lemma_mul_is_commutative(m, k * k);
    }
    lemma_pow_one_plus(c, p, m);
    assert(1 + p * c == 1 + m * k) by (nonlinear_arith)
        requires
            c == k * pi,
            m == pi * pi,
            pi == p,
    ;
    lemma_mod_multiples_vanish(k, 1, m);
    assert(p * p > 1) by (nonlinear_arith)
        requires
            p > 1,
    ;
    lemma_small_mod(1, (p * p) as nat);
}

/// Agreeing modulo the squares of two different primes means agreeing
/// modulo the square of their product.
pub proof fn lemma_crt_two_prime_squares(x: int, y: int, p: nat, q: nat)
    requires
        is_prime(p),
        is_prime(q),
        p != q,
        x % ((p * p) as int) == y % ((p * p) as int),
        x % ((q * q) as int) == y % ((q * q) as int),
    ensures
        x % ((p * q) * (p * q)) as int == y % ((p * q) * (p * q)) as int,
{
    let pi = p as int;
    let qi = q as int;
    let pp = pi * pi;
    let qq = qi * qi;
    lemma_mul_strictly_positive(pi, pi);
    lemma_mul_strictly_positive(qi, qi);
    lemma_sub_mod_noop(x, y, pp);
    lemma_sub_mod_noop(x, y, qq);
    lemma_small_mod(0, (p * p) as nat);
    lemma_small_mod(0, (q * q) as nat);
    lemma_mod_bound(x, pp);
    lemma_mod_bound(y, pp);
    lemma_mod_bound(x, qq);
    lemma_mod_bound(y, qq);
    assert((x - y) % pp == 0);
    assert((x - y) % qq == 0);
    lemma_fundamental_div_mod(x - y, pp);
    let t = (x - y) / pp;
    // q divides p * (p * t), so q divides t
    lemma_distinct_primes(p, q);
    assert(((pi * (pi * t)) % qi) == 0) by {
        lemma_fundamental_div_mod(x - y, qq);
        let u = (x - y) / qq;
        assert(pi * (pi * t) == qi * (qi * u)) by (nonlinear_arith)
            requires
                x - y == pp * t,
                x - y == qq * u,
                pp == pi * pi,
                qq == qi * qi,
        ;
        lemma_mod_multiples_basic(qi * u, qi);
        lemma_mul_is_commutative(qi, qi * u);
    }
    lemma_euclid(pi, pi * t, q);
    lemma_euclid(pi, t, q);
    lemma_fundamental_div_mod(t, qi);
    let t1 = t / qi;
    // q divides p * p * t1 as well
    assert(((pi * (pi * t1)) % qi) == 0) by {
        lemma_fundamental_div_mod(x - y, qq);
        let u = (x - y) / qq;
        assert(qi * (pi * (pi * t1)) == qi * (qi * u)) by (nonlinear_arith)
            requires
                x - y == pp * t,
                t == qi * t1,
                x - y == qq * u,
                pp == pi * pi,
                qq == qi * qi,
        ;
        lemma_mul_equality_converse(qi, pi * (pi * t1), qi * u);
        lemma_mod_multiples_basic(u, qi);
        lemma_mul_is_commutative(qi, u);
    }
    lemma_euclid(pi, pi * t1, q);
    lemma_euclid(pi, t1, q);
    lemma_fundamental_div_mod(t1, qi);
    let t2 = t1 / qi;
    let n2 = (pi * qi) * (pi * qi);
    assert(x - y == n2 * t2) by (nonlinear_arith)
        requires
            x - y == pp * t,
            t == qi * t1,
            t1 == qi * t2,
            pp == pi * pi,
            n2 == (pi * qi) * (pi * qi),
    ;
    lemma_mul_strictly_positive(pi, qi);
    lemma_mul_strictly_positive(pi * qi, pi * qi);
    lemma_mod_multiples_vanish(t2, y, n2);
}

/// The greatest common divisor does not depend on the order.
pub proof fn lemma_gcd_symmetric(a: nat, b: nat)
    ensures
        gcd(a, b) == gcd(b, a),
{
    if a > 0 || b > 0 {
        lemma_gcd_divides(a, b);
        lemma_gcd_divides(b, a);
        lemma_gcd_greatest(a, b, gcd(b, a));
        lemma_gcd_greatest(b, a, gcd(a, b));
    } else {
        assert(gcd(0, 0) == 0);
    }
}

/// Every common divisor of `a` and `b` divides `gcd(a, b)`, so it is at
/// most the gcd when the gcd is positive.
proof fn lemma_gcd_greatest(a: nat, b: nat, d: nat)
    requires
        d > 0,
        a % d == 0,
        b % d == 0,
        a > 0 || b > 0,
    ensures
        gcd(a, b) % d == 0,
        d <= gcd(a, b),
    decreases b,
{
    if b == 0 {
        lemma_mod_is_zero(a, d);
    } else {
        lemma_fundamental_div_mod(a as int, b as int);
        lemma_fundamental_div_mod(a as int, d as int);
        lemma_fundamental_div_mod(b as int, d as int);
        let q = a as int / b as int;
        let ka = a as int / d as int;
        let kb = b as int / d as int;
        assert((a % b) as int == d * (ka - q * kb)) by (nonlinear_arith)
            requires
                a as int == b * q + (a % b) as int,
                a as int == d * ka,
                b as int == d * kb,
        ;
        lemma_mod_multiples_basic(ka - q * kb, d as int);
        lemma_mul_is_commutative(d as int, ka - q * kb);
        lemma_gcd_greatest(b, a % b, d);
        lemma_gcd_divides(a, b);
        lemma_mod_is_zero(gcd(a, b), d);
    }
}

} // verus!
