//! Square-and-multiply exponentiation modulo `m`: the fact each loop step of
//! the RSA and Paillier routines rests on.
use vstd::prelude::*;
use vstd::arithmetic::div_mod::*;
use vstd::arithmetic::mul::*;
use vstd::arithmetic::power::*;

verus! {

/// One square-and-multiply step keeps `r * base^e` fixed modulo `m`.
pub proof fn lemma_pow_mod_step(r: int, b: int, e: nat, m: int)
    requires
        m > 0,
        e > 0,
    ensures
        ((if e % 2 == 1 { (r * b) % m } else { r }) * pow((b * b) % m, e / 2)) % m == (r * pow(b, e)) % m,
{
    let k = e / 2;
    let bit = e % 2;
    assert(e == 2 * k + bit);
    lemma_pow_adds(b, 2 * k, bit);
    lemma_pow_multiplies(b, 2, k);
    assert(pow(b, 2) == b * b) by {
        reveal(pow);
        assert(pow(b, 0) == 1);
        assert(pow(b, 1) == b * pow(b, 0));
    }
    assert(pow(b, 2 * k) == pow(b * b, k)) by {
        assert(2 * k == 2nat * k);
    }
    lemma_pow_mod_noop(b * b, k, m);
    let big = pow(b * b, k);
    let small = pow((b * b) % m, k);
    assert(small % m == big % m);
    if bit == 1 {
        assert(pow(b, 1) == b) by {
            reveal(pow);
            assert(pow(b, 0) == 1);
        }
        assert(pow(b, e) == big * b);
        // ((r * b) % m * small) % m == (r * b * small) % m == (r * b * big) % m
        lemma_mul_mod_noop_general(r * b, small, m);
        lemma_mul_mod_noop_general(r * b, big, m);
        assert((r * b) * big == r * (big * b)) by (nonlinear_arith);
    } else {
        assert(bit == 0);
        assert(pow(b, 0) == 1) by {
            reveal(pow);
        }
        assert(pow(b, e) == big * 1);
        lemma_mul_mod_noop_general(r, small, m);
        lemma_mul_mod_noop_general(r, big, m);
    }
}

/// `1 * (b % m)^e` is `b^e` modulo `m`, the state square-and-multiply starts from.
pub proof fn lemma_pow_mod_start(b: int, e: nat, m: int)
    requires
        m > 0,
    ensures
        (1 * pow(b % m, e)) % m == pow(b, e) % m,
{
    lemma_pow_mod_noop(b, e, m);
}

/// A power of a value in `[0, m)` taken modulo `m` with exponent 0 is 1.
pub proof fn lemma_pow_zero(b: int)
    ensures
        pow(b, 0) == 1,
{
    reveal(pow);
}

} // verus!
