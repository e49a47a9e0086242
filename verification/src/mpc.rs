//! Shamir secret sharing over the integers and a two-party comparison
//! built on it: shares are values of a polynomial whose constant term is
//! the secret, and Lagrange interpolation at zero recovers it.
use vstd::prelude::*;
use core::cmp::Ordering;
use rand::Rng;
use crate::euclid::{lemma_trunc_div_rem, tdiv};
use crate::modular::fits_i64;

verus! {

/// `b` to the power `e`.
pub open spec fn power(b: int, e: nat) -> int
    decreases e,
{
    if e == 0 {
        1
    } else {
        b * power(b, (e - 1) as nat)
    }
}

/// The first `k` terms of the polynomial with these coefficients at `x`.
pub open spec fn poly_at(coeffs: Seq<i64>, x: int, k: nat) -> int
    decreases k,
{
    if k == 0 {
        0
    } else {
        poly_at(coeffs, x, (k - 1) as nat) + coeffs[k - 1] * power(x, (k - 1) as nat)
    }
}

/// The shares of the polynomial: its values at `1, 2, ..., n`.
pub open spec fn shares_of(coeffs: Seq<i64>, n: nat) -> Seq<i64> {
    Seq::new(n, |i: int| poly_at(coeffs, i + 1, coeffs.len()) as i64)
}

/// Evaluating the polynomial at `1..=n` term by term stays within `i64`.
pub open spec fn split_ok(coeffs: Seq<i64>, n: nat) -> bool {
    forall|x: int, p: nat|
        1 <= x <= n && p < coeffs.len() ==> {
            &&& fits_i64(#[trigger] power(x, p))
            &&& fits_i64(coeffs[p as int] * power(x, p))
            &&& fits_i64(poly_at(coeffs, x, p + 1))
        }
}

/// The coefficients a split of `secret` with threshold `threshold` may
/// draw: the secret, then one draw in `-5..5` per degree up to
/// `threshold - 1`.
pub open spec fn valid_coeffs(coeffs: Seq<i64>, secret: i64, threshold: usize) -> bool {
    &&& coeffs.len() == (if threshold > 1 { threshold as nat } else { 1 })
    &&& coeffs[0] == secret
    &&& forall|p: int| 1 <= p < coeffs.len() ==> -5 <= #[trigger] coeffs[p] < 5
}

/// Whatever the draws, the shares of `secret` can be computed in `i64`.
pub open spec fn split_fits(secret: i64, num_shares: usize, threshold: usize) -> bool {
    forall|coeffs: Seq<i64>| #[trigger] valid_coeffs(coeffs, secret, threshold) ==> split_ok(coeffs, num_shares as nat)
}

/// The product of `-xs[j]` over `j < k`, `j != i`.
pub open spec fn lag_num(xs: Seq<i64>, i: int, k: int) -> int
    decreases k,
{
    if k <= 0 {
        1
    } else if k - 1 == i {
        lag_num(xs, i, k - 1)
    } else {
        lag_num(xs, i, k - 1) * (-xs[k - 1])
    }
}

/// The product of `xs[i] - xs[j]` over `j < k`, `j != i`.
pub open spec fn lag_den(xs: Seq<i64>, i: int, k: int) -> int
    decreases k,
{
    if k <= 0 {
        1
    } else if k - 1 == i {
        lag_den(xs, i, k - 1)
    } else {
        lag_den(xs, i, k - 1) * (xs[i] - xs[k - 1])
    }
}

/// The `i`-th Lagrange term at zero, divided with truncation as `i64`
/// division does.
pub open spec fn lag_term(shares: Seq<i64>, xs: Seq<i64>, i: int) -> int {
    tdiv(shares[i] * lag_num(xs, i, xs.len() as int), lag_den(xs, i, xs.len() as int))
}

/// The sum of the first `k` Lagrange terms.
pub open spec fn recon_sum(shares: Seq<i64>, xs: Seq<i64>, k: int) -> int
    decreases k,
{
    if k <= 0 {
        0
    } else {
        recon_sum(shares, xs, k - 1) + lag_term(shares, xs, k - 1)
    }
}

/// Folding point `j` into the products for share `i` stays within `i64`.
pub open spec fn step_ok(xs: Seq<i64>, i: int, j: int) -> bool {
    &&& fits_i64(-xs[j])
    &&& fits_i64(xs[i] - xs[j])
    &&& fits_i64(lag_num(xs, i, j + 1))
    &&& fits_i64(lag_den(xs, i, j + 1))
}

/// Interpolating these shares stays within `i64` and divides by no zero:
/// each `-xs[j]`, each difference, each partial product, each numerator
/// times its share, each quotient and each partial sum fits.
pub open spec fn reconstruct_ok(shares: Seq<i64>, xs: Seq<i64>) -> bool {
    &&& shares.len() <= xs.len()
    &&& forall|i: int, j: int|
        0 <= i < shares.len() && 0 <= j < xs.len() && i != j ==> #[trigger] step_ok(xs, i, j)
    &&& forall|i: int|
        0 <= i < shares.len() ==> {
            &&& lag_den(xs, i, xs.len() as int) != 0
            &&& fits_i64(#[trigger] (shares[i] * lag_num(xs, i, xs.len() as int)))
            &&& fits_i64(lag_term(shares, xs, i))
            &&& fits_i64(recon_sum(shares, xs, i + 1))
        }
}

/// One random coefficient in `-5..5` from the thread's generator.
/// Trusted: `gen_range` returns a value of the range; which one is chance.
#[verifier::external_body]
fn small_coefficient() -> (c: i64)
    ensures
        -5 <= c < 5,
{
    rand::thread_rng().gen_range(-5..5)
}

/// The shares of the polynomial with these coefficients at `1..=n`.
pub fn shares_from_coeffs(coeffs: &Vec<i64>, num_shares: usize) -> (shares: Vec<i64>)
    requires
        split_ok(coeffs@, num_shares as nat),
    ensures
        shares@ == shares_of(coeffs@, num_shares as nat),
{
    let mut shares: Vec<i64> = Vec::new();
    let mut k: usize = 0;
    while k < num_shares
        invariant
            split_ok(coeffs@, num_shares as nat),
            k <= num_shares,
            shares@.len() == k,
            forall|m: int| 0 <= m < k ==> #[trigger] shares@[m] == poly_at(coeffs@, m + 1, coeffs@.len()),
        decreases num_shares - k,
    {
        let x: usize = k + 1;
        let mut share: i64 = 0;
        let mut pw: i64 = 1;
        let mut p: usize = 0;
        #[verifier::truncate]
        let xi = x as i64;
        if coeffs.len() >= 2 {
            assert(fits_i64(power(x as int, 1)));
            assert(power(x as int, 1) == x) by {
                reveal_with_fuel(power, 2);
            }
        }
        while p < coeffs.len()
            invariant
                split_ok(coeffs@, num_shares as nat),
                1 <= x <= num_shares,
                coeffs@.len() >= 2 ==> xi == x,
                p <= coeffs@.len(),
                p < coeffs@.len() ==> pw == power(x as int, p as nat),
                share == poly_at(coeffs@, x as int, p as nat),
            decreases coeffs@.len() - p,
        {
            assert(fits_i64(power(x as int, p as nat)));
            share = share + coeffs[p] * pw;
            if p + 1 < coeffs.len() {
                assert(fits_i64(power(x as int, (p + 1) as nat)));
                assert(power(x as int, (p + 1) as nat) == x * power(x as int, p as nat));
                pw = pw * xi;
            }
            p = p + 1;
        }
        shares.push(share);
        k = k + 1;
    }
    assert(shares@ =~= shares_of(coeffs@, num_shares as nat));
    shares
}

/// Splits `secret` into `num_shares` shares with `threshold`: the
/// polynomial has the secret as constant term and random coefficients in
/// `-5..5` up to degree `threshold - 1`. Overflow is ruled out for every
/// draw.
pub fn shamir_split(secret: i64, num_shares: usize, threshold: usize) -> (shares: Vec<i64>)
    requires
        split_fits(secret, num_shares, threshold),
    ensures
        exists|coeffs: Seq<i64>|
            valid_coeffs(coeffs, secret, threshold) && shares@ == shares_of(coeffs, num_shares as nat),
{
    let mut coeffs: Vec<i64> = vec![secret];
    let mut k: usize = 1;
    while k < threshold
        invariant
            1 <= k,
            k < threshold ==> coeffs@.len() == k,
            k >= threshold ==> coeffs@.len() == (if threshold > 1 { threshold as nat } else { 1 }),
            coeffs@.len() == k,
            coeffs@[0] == secret,
            forall|p: int| 1 <= p < coeffs@.len() ==> -5 <= #[trigger] coeffs@[p] < 5,
        decreases threshold - k,
    {
        let c = small_coefficient();
        coeffs.push(c);
        k = k + 1;
    }
    assert(valid_coeffs(coeffs@, secret, threshold));
    shares_from_coeffs(&coeffs, num_shares)
}

/// Lagrange interpolation at zero of `shares` taken at the points `xs`,
/// each term divided with truncation.
pub fn shamir_reconstruct(shares: Vec<i64>, xs: Vec<i64>) -> (secret: i64)
    requires
        reconstruct_ok(shares@, xs@),
    ensures
        secret == recon_sum(shares@, xs@, shares@.len() as int),
{
    let mut secret: i64 = 0;
    let mut i: usize = 0;
    while i < shares.len()
        invariant
            reconstruct_ok(shares@, xs@),
            i <= shares@.len(),
            secret == recon_sum(shares@, xs@, i as int),
        decreases shares@.len() - i,
    {
        let share = shares[i];
        let mut num: i64 = 1;
        let mut den: i64 = 1;
        let mut j: usize = 0;
        while j < xs.len()
            invariant
                reconstruct_ok(shares@, xs@),
                i < shares@.len(),
                j <= xs@.len(),
                num == lag_num(xs@, i as int, j as int),
                den == lag_den(xs@, i as int, j as int),
            decreases xs@.len() - j,
        {
            if i != j {
                let xj = xs[j];
                assert(step_ok(xs@, i as int, j as int));
                num = num * (-xj);
                den = den * (xs[i] - xj);
            }
            j = j + 1;
        }
        assert(fits_i64(shares@[i as int] * lag_num(xs@, i as int, xs@.len() as int)));
        let term = (share * num) / den;
        assert(fits_i64(recon_sum(shares@, xs@, i + 1)));
        secret = secret + term;
        i = i + 1;
    }
    secret
}

/// Interpolating two shares `u`, `v` taken at the points 1 and 2: the
/// terms are `2u` and `-v`.
proof fn lemma_two_points(u: i64, v: i64)
    requires
        fits_i64(2 * u),
        fits_i64(-2 * u),
        fits_i64(-v),
        fits_i64(2 * u - v),
    ensures
        reconstruct_ok(seq![u, v], seq![1i64, 2i64]),
        recon_sum(seq![u, v], seq![1i64, 2i64], 2) == 2 * u - v,
{
    let sh = seq![u, v];
    let xs = seq![1i64, 2i64];
    assert(lag_num(xs, 0, 0) == 1);
    assert(lag_den(xs, 0, 0) == 1);
    assert(lag_num(xs, 1, 0) == 1);
    assert(lag_den(xs, 1, 0) == 1);
    assert(lag_num(xs, 0, 1) == 1);
    assert(lag_num(xs, 0, 2) == -2);
    assert(lag_den(xs, 0, 1) == 1);
    assert(lag_den(xs, 0, 2) == -1);
    assert(lag_num(xs, 1, 1) == -1);
    assert(lag_num(xs, 1, 2) == -1);
    assert(lag_den(xs, 1, 1) == 1);
    assert(lag_den(xs, 1, 2) == 1);
    lemma_trunc_div_rem(-2 * u, -1);
    lemma_trunc_div_rem(-v as int, 1);
    assert(sh[0] == u && sh[1] == v && xs.len() == 2);
    assert(tdiv(-2 * u, -1) == 2 * u);
    assert(sh[0] * lag_num(xs, 0, 2) == -2 * u);
    assert(lag_term(sh, xs, 0) == 2 * u);
    assert(lag_term(sh, xs, 1) == -v);
    assert(recon_sum(sh, xs, 0) == 0);
    assert(recon_sum(sh, xs, 1) == 2 * u);
    assert(recon_sum(sh, xs, 2) == 2 * u - v);
    assert forall|i: int, j: int| 0 <= i < sh.len() && 0 <= j < xs.len() && i != j implies #[trigger] step_ok(
        xs,
        i,
        j,
    ) by {
        if i == 0 {
            assert(j == 1);
        } else {
            assert(j == 0);
        }
    }
}

/// With two shares at the points 1 and 2 of the line `secret + c x`,
/// the polynomial evaluation gives `secret + c` and `secret + 2c`.
proof fn lemma_two_shares(secret: i64, c: i64)
    requires
        fits_i64(secret + c),
        fits_i64(secret + 2 * c),
        fits_i64(2 * c),
    ensures
        split_ok(seq![secret, c], 2),
        shares_of(seq![secret, c], 2) == seq![(secret + c) as i64, (secret + 2 * c) as i64],
{
    let co = seq![secret, c];
    reveal_with_fuel(power, 2);
    assert(power(1, 0) == 1);
    assert(power(2, 0) == 1);
    assert(power(1, 1) == 1);
    assert(power(2, 1) == 2);
    assert(poly_at(co, 1, 0) == 0);
    assert(poly_at(co, 2, 0) == 0);
    assert(poly_at(co, 1, 1) == secret);
    assert(poly_at(co, 2, 1) == secret);
    assert(poly_at(co, 1, 2) == secret + c);
    assert(poly_at(co, 2, 2) == secret + 2 * c);
    assert forall|x: int, p: nat| 1 <= x <= 2 && p < co.len() implies {
        &&& fits_i64(#[trigger] power(x, p))
        &&& fits_i64(co[p as int] * power(x, p))
        &&& fits_i64(poly_at(co, x, p + 1))
    } by {
        if x == 1 {
            if p == 0 {
            } else {
                assert(p == 1);
            }
        } else {
            assert(x == 2);
            if p == 0 {
            } else {
                assert(p == 1);
            }
        }
    }
    assert(shares_of(co, 2) =~= seq![(secret + c) as i64, (secret + 2 * c) as i64]);
}

/// A two-of-two split and its interpolation undo each other: the shares
/// `secret + c` and `secret + 2c` at the points 1 and 2 interpolate back to
/// `secret`, for every coefficient `c` that keeps them within `i64`.
pub proof fn lemma_two_share_roundtrip(secret: i64, c: i64)
    requires
        fits_i64(secret + c),
        fits_i64(secret + 2 * c),
        fits_i64(2 * c),
        fits_i64(2 * (secret + c)),
        fits_i64(-2 * (secret + c)),
    ensures
        ({
            let shares = shares_of(seq![secret, c], 2);
            &&& reconstruct_ok(shares, seq![1i64, 2i64])
            &&& recon_sum(shares, seq![1i64, 2i64], 2) == secret
        }),
{
    lemma_two_shares(secret, c);
    lemma_two_points((secret + c) as i64, (secret + 2 * c) as i64);
}

/// The two secrets are far enough from the ends of `i64` that every draw
/// of the comparison, and their difference, stays within it.
pub open spec fn compare_fits(secret_a: i64, secret_b: i64) -> bool {
    &&& i64::MIN + 21 <= 2 * secret_a && 2 * secret_a + 16 <= i64::MAX
    &&& i64::MIN + 21 <= 2 * secret_b && 2 * secret_b + 16 <= i64::MAX
    &&& fits_i64(secret_a - secret_b)
}

proof fn lemma_split_fits_two(secret: i64)
    requires
        i64::MIN + 21 <= 2 * secret && 2 * secret + 16 <= i64::MAX,
    ensures
        split_fits(secret, 2, 2),
{
    assert forall|co: Seq<i64>| #[trigger] valid_coeffs(co, secret, 2) implies split_ok(co, 2) by {
        assert(co =~= seq![secret, co[1]]);
        lemma_two_shares(secret, co[1]);
    }
}

/// Less, Equal or Greater as `d` is below, at or above zero.
pub open spec fn sign_order(d: int) -> Ordering {
    if d < 0 {
        Ordering::Less
    } else if d == 0 {
        Ordering::Equal
    } else {
        Ordering::Greater
    }
}

/// Compares two secrets through shares: each is split two-of-two, the
/// first share of each party goes to the other, and each secret is
/// interpolated at 0 from its two shares at the points 1 and 2. The result
/// is how the first secret compares with the second, whatever coefficients
/// were drawn.
pub fn mpc_compare(secret_a: i64, secret_b: i64) -> (r: Ordering)
    requires
        compare_fits(secret_a, secret_b),
    ensures
        r == sign_order(secret_a - secret_b),
{
    proof {
        lemma_split_fits_two(secret_a);
        lemma_split_fits_two(secret_b);
    }
    let shares_a = shamir_split(secret_a, 2, 2);
    let shares_b = shamir_split(secret_b, 2, 2);
    let ghost co_a = choose|co: Seq<i64>| valid_coeffs(co, secret_a, 2) && shares_a@ == shares_of(co, 2);
    let ghost co_b = choose|co: Seq<i64>| valid_coeffs(co, secret_b, 2) && shares_b@ == shares_of(co, 2);
    proof {
        assert(co_a =~= seq![secret_a, co_a[1]]);
        assert(co_b =~= seq![secret_b, co_b[1]]);
        lemma_two_shares(secret_a, co_a[1]);
        lemma_two_shares(secret_b, co_b[1]);
    }
    let a_share_to_b = shares_a[0];
    let b_share_to_a = shares_b[0];
    proof {
        lemma_two_points(a_share_to_b, shares_a@[1]);
        lemma_two_points(b_share_to_a, shares_b@[1]);
    }
    let reconstructed_a = shamir_reconstruct(vec![a_share_to_b, shares_a[1]], vec![1, 2]);
    let reconstructed_b = shamir_reconstruct(vec![b_share_to_a, shares_b[1]], vec![1, 2]);
    assert(reconstructed_a == secret_a);
    assert(reconstructed_b == secret_b);
    let diff = reconstructed_a - reconstructed_b;
    if diff < 0 {
        Ordering::Less
    } else if diff == 0 {
        Ordering::Equal
    } else {
        Ordering::Greater
    }
}

} // verus!
