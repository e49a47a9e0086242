//! Lagrange interpolation at zero through the points `1, 2, ..., t`
//! recovers the constant term of every polynomial with `t` coefficients:
//! the round trip of Shamir sharing for every threshold. The proof goes
//! through finite differences: the alternating binomial sum of a function
//! vanishes once its differences of that order do.
use vstd::prelude::*;
use vstd::arithmetic::power::pow;
use crate::euclid::{abs, lemma_trunc_div_rem, tdiv, trem};
use crate::modular::fits_i64;
use crate::mpc::{lag_den, lag_num, lag_term, poly_at, power, recon_sum, reconstruct_ok, shares_of, split_ok};
use crate::primes::{binom, binom_sum, lemma_binom_above, lemma_binom_absorb, lemma_binom_all, lemma_binomial};

verus! {

/// `(-1)^k`.
pub open spec fn sign(k: nat) -> int {
    if k % 2 == 0 { 1 } else { -1 }
}

/// The first `j` terms of the alternating binomial sum
/// `sum (-1)^k C(n, k) g(k)`.
pub open spec fn alt_partial(g: spec_fn(int) -> int, n: nat, j: nat) -> int
    decreases j,
{
    if j == 0 {
        0
    } else {
        alt_partial(g, n, (j - 1) as nat) + sign((j - 1) as nat) * binom(n, (j - 1) as nat) * g(j - 1)
    }
}

/// The alternating binomial sum `sum_{k <= n} (-1)^k C(n, k) g(k)`.
pub open spec fn alt_sum(g: spec_fn(int) -> int, n: nat) -> int {
    alt_partial(g, n, n + 1)
}

/// `g` moved one step: `k |-> g(k + 1)`.
pub open spec fn shift(g: spec_fn(int) -> int) -> spec_fn(int) -> int {
    |k: int| g(k + 1)
}

/// The forward difference `k |-> g(k + 1) - g(k)`.
pub open spec fn diff(g: spec_fn(int) -> int) -> spec_fn(int) -> int {
    |k: int| g(k + 1) - g(k)
}

/// The `d`-th forward difference of `g` is zero everywhere: `g` is a
/// polynomial of degree below `d` on the integers.
pub open spec fn deg_below(g: spec_fn(int) -> int, d: nat) -> bool
    decreases d,
{
    if d == 0 {
        forall|k: int| #[trigger] g(k) == 0
    } else {
        deg_below(diff(g), (d - 1) as nat)
    }
}

proof fn lemma_unit_term(n: nat, x: int)
    ensures
        sign(0) * binom(n, 0) * x == x,
{
    assert(sign(0) == 1);
    assert(binom(n, 0) == 1);
    let (a, b) = (sign(0), binom(n, 0) as int);
    assert(a * b * x == x) by (nonlinear_arith)
        requires
            a == 1,
            b == 1,
    ;
}

proof fn lemma_sign_step(k: nat)
    ensures
        sign(k + 1) == -sign(k),
{
}

/// Pascal's rule on the partial sums.
proof fn lemma_alt_pascal(g: spec_fn(int) -> int, n: nat, j: nat)
    requires
        n >= 1,
    ensures
        alt_partial(g, n, j + 1) == alt_partial(g, (n - 1) as nat, j + 1) - alt_partial(shift(g), (n - 1) as nat, j),
    decreases j,
{
    let m = (n - 1) as nat;
    if j == 0 {
        assert(binom(n, 0) == 1);
        assert(binom(m, 0) == 1);
        lemma_unit_term(n, g(0));
        lemma_unit_term(m, g(0));
        assert(alt_partial(g, n, 0) == 0);
        assert(alt_partial(g, m, 0) == 0);
        assert(alt_partial(shift(g), m, 0) == 0);
        assert(alt_partial(g, n, 1) == g(0));
        assert(alt_partial(g, m, 1) == g(0));
    } else {
        let i = (j - 1) as nat;
        lemma_alt_pascal(g, n, i);
        lemma_sign_step(i);
        let s = sign(j);
        let c = binom(n, j);
        let a = binom(m, i);
        let b = binom(m, j);
        assert(c == a + b);
        assert(shift(g)(i as int) == g(j as int));
        let gj = g(j as int);
        assert(s * c * gj == s * b * gj + s * a * gj) by (nonlinear_arith)
            requires
                c == a + b,
        ;
        assert(sign(i) * a * gj == -(s * a * gj)) by (nonlinear_arith)
            requires
                sign(i) == -s,
        ;
    }
}

/// The sums are linear: the sum of a difference is the difference of the
/// sums of the shifted and the original function.
proof fn lemma_alt_diff_linear(g: spec_fn(int) -> int, n: nat, j: nat)
    ensures
        alt_partial(diff(g), n, j) == alt_partial(shift(g), n, j) - alt_partial(g, n, j),
    decreases j,
{
    if j > 0 {
        let i = (j - 1) as nat;
        lemma_alt_diff_linear(g, n, i);
        let w = sign(i) * binom(n, i);
        assert(diff(g)(i as int) == g(i + 1 as int) - g(i as int));
        assert(shift(g)(i as int) == g(i + 1 as int));
        let (u, v) = (g(i + 1 as int), g(i as int));
        assert(w * (u - v) == w * u - w * v) by (nonlinear_arith);
        let (sg, bn) = (sign(i), binom(n, i) as int);
        assert(sg * bn * (u - v) == w * (u - v)) by (nonlinear_arith)
            requires
                w == sg * bn,
        ;
        assert(sg * bn * u == w * u) by (nonlinear_arith)
            requires
                w == sg * bn,
        ;
        assert(sg * bn * v == w * v) by (nonlinear_arith)
            requires
                w == sg * bn,
        ;
    }
}

/// The alternating sum of order `n` is minus that of order `n - 1` of the
/// difference.
proof fn lemma_alt_step(g: spec_fn(int) -> int, n: nat)
    requires
        n >= 1,
    ensures
        alt_sum(g, n) == -alt_sum(diff(g), (n - 1) as nat),
{
    let m = (n - 1) as nat;
    lemma_alt_pascal(g, n, n);
    lemma_binom_above(m, n);
    assert(alt_partial(g, m, n + 1) == alt_partial(g, m, n) + sign(n) * binom(m, n) * g(n as int));
    assert(sign(n) * 0 * g(n as int) == 0) by (nonlinear_arith);
    lemma_alt_diff_linear(g, m, n);
}

/// The alternating sum of order `n` of a polynomial of degree below `n`
/// vanishes.
pub proof fn lemma_alt_vanishes(g: spec_fn(int) -> int, n: nat)
    requires
        deg_below(g, n),
    ensures
        alt_sum(g, n) == 0,
    decreases n,
{
    if n == 0 {
        assert(binom(0, 0) == 1);
        assert(g(0) == 0);
        lemma_unit_term(0, g(0));
        assert(alt_partial(g, 0, 0) == 0);
        assert(alt_partial(g, 0, 1) == g(0));
    } else {
        lemma_alt_step(g, n);
        lemma_alt_vanishes(diff(g), (n - 1) as nat);
    }
}

/// `g + h`, pointwise.
pub open spec fn add_fn(g: spec_fn(int) -> int, h: spec_fn(int) -> int) -> spec_fn(int) -> int {
    |k: int| g(k) + h(k)
}

/// `c g`, pointwise.
pub open spec fn scale_fn(c: int, g: spec_fn(int) -> int) -> spec_fn(int) -> int {
    |k: int| c * g(k)
}

/// The monomial `x^p`.
pub open spec fn mono(p: nat) -> spec_fn(int) -> int {
    |x: int| pow(x, p)
}

proof fn lemma_deg_grow(g: spec_fn(int) -> int, d: nat)
    requires
        deg_below(g, d),
    ensures
        deg_below(g, d + 1),
    decreases d,
{
    if d == 0 {
        assert forall|k: int| #[trigger] diff(g)(k) == 0 by {
            assert(g(k) == 0);
            assert(g(k + 1) == 0);
        }
        assert(deg_below(diff(g), 0));
    } else {
        lemma_deg_grow(diff(g), (d - 1) as nat);
        assert(deg_below(diff(g), d));
    }
}

proof fn lemma_deg_add(g: spec_fn(int) -> int, h: spec_fn(int) -> int, d: nat)
    requires
        deg_below(g, d),
        deg_below(h, d),
    ensures
        deg_below(add_fn(g, h), d),
    decreases d,
{
    if d == 0 {
        assert forall|k: int| #[trigger] add_fn(g, h)(k) == 0 by {
            assert(g(k) == 0);
            assert(h(k) == 0);
        }
    } else {
        assert(diff(add_fn(g, h)) =~= add_fn(diff(g), diff(h)));
        lemma_deg_add(diff(g), diff(h), (d - 1) as nat);
    }
}

proof fn lemma_deg_scale(c: int, g: spec_fn(int) -> int, d: nat)
    requires
        deg_below(g, d),
    ensures
        deg_below(scale_fn(c, g), d),
    decreases d,
{
    if d == 0 {
        assert forall|k: int| #[trigger] scale_fn(c, g)(k) == 0 by {
            assert(g(k) == 0);
            assert(c * 0 == 0) by (nonlinear_arith);
        }
    } else {
        assert forall|k: int| #[trigger] diff(scale_fn(c, g))(k) == scale_fn(c, diff(g))(k) by {
            let (u, v) = (g(k + 1), g(k));
            assert(c * u - c * v == c * (u - v)) by (nonlinear_arith);
        }
        assert(diff(scale_fn(c, g)) =~= scale_fn(c, diff(g)));
        lemma_deg_scale(c, diff(g), (d - 1) as nat);
    }
}

/// The first `j` terms of the binomial expansion of `(x + 1)^p` form a
/// polynomial of degree below `j`.
proof fn lemma_deg_binom_partial(p: nat, j: nat)
    requires
        j <= p,
    ensures
        deg_below(|x: int| binom_sum(x, p, j), j),
    decreases p, j,
{
    let f = |x: int| binom_sum(x, p, j);
    if j == 0 {
        assert forall|k: int| #[trigger] f(k) == 0 by {
            assert(binom_sum(k, p, 0) == 0);
        }
    } else {
        let i = (j - 1) as nat;
        let prev = |x: int| binom_sum(x, p, i);
        lemma_deg_binom_partial(p, i);
        lemma_deg_grow(prev, i);
        lemma_deg_monomial(i);
        lemma_deg_scale(binom(p, i) as int, mono(i), j);
        lemma_deg_add(prev, scale_fn(binom(p, i) as int, mono(i)), j);
        assert(f =~= add_fn(prev, scale_fn(binom(p, i) as int, mono(i))));
    }
}

/// `x^p` is a polynomial of degree below `p + 1`: its difference is the
/// binomial expansion of `(x + 1)^p` without its top term.
proof fn lemma_deg_monomial(p: nat)
    ensures
        deg_below(mono(p), p + 1),
    decreases p, p + 1,
{
    lemma_binom_all(p);
    assert forall|x: int| #[trigger] diff(mono(p))(x) == binom_sum(x, p, p) by {
        lemma_binomial(x, p);
        let (b, w) = (binom(p, p) as int, pow(x, p));
        assert(b * w == w) by (nonlinear_arith)
            requires
                b == 1,
        ;
        assert(binom_sum(x, p, p + 1) == binom_sum(x, p, p) + b * w);
    }
    assert(diff(mono(p)) =~= |x: int| binom_sum(x, p, p));
    lemma_deg_binom_partial(p, p);
}

proof fn lemma_power_is_pow(b: int, e: nat)
    ensures
        power(b, e) == pow(b, e),
    decreases e,
{
    reveal(pow);
    if e > 0 {
        lemma_power_is_pow(b, (e - 1) as nat);
    }
}

/// The polynomial with the first `k` of these coefficients has degree
/// below `k`.
proof fn lemma_deg_poly(co: Seq<i64>, k: nat)
    requires
        k <= co.len(),
    ensures
        deg_below(|x: int| poly_at(co, x, k), k),
    decreases k,
{
    let f = |x: int| poly_at(co, x, k);
    if k == 0 {
        assert forall|x: int| #[trigger] f(x) == 0 by {}
    } else {
        let i = (k - 1) as nat;
        let prev = |x: int| poly_at(co, x, i);
        lemma_deg_poly(co, i);
        lemma_deg_grow(prev, i);
        lemma_deg_monomial(i);
        lemma_deg_scale(co[i as int] as int, mono(i), k);
        lemma_deg_add(prev, scale_fn(co[i as int] as int, mono(i)), k);
        assert forall|x: int| #[trigger] f(x) == add_fn(prev, scale_fn(co[i as int] as int, mono(i)))(x) by {
            lemma_power_is_pow(x, i);
        }
        assert(f =~= add_fn(prev, scale_fn(co[i as int] as int, mono(i))));
    }
}

/// `n!`.
pub open spec fn fact(n: nat) -> nat
    decreases n,
{
    if n == 0 { 1 } else { n * fact((n - 1) as nat) }
}

/// The points `1, 2, ..., t`.
pub open spec fn first_points(xs: Seq<i64>, t: nat) -> bool {
    &&& xs.len() == t
    &&& forall|j: int| 0 <= j < t ==> #[trigger] xs[j] == j + 1
}

/// Before point `i` is reached, the numerator is `(-1)^k k!` and the
/// denominator is the falling product `i (i - 1) ... (i - k + 1)`.
proof fn lemma_weight_low(xs: Seq<i64>, t: nat, i: nat, k: nat)
    requires
        first_points(xs, t),
        i < t,
        k <= i,
    ensures
        lag_num(xs, i as int, k as int) == sign(k) * fact(k),
        lag_den(xs, i as int, k as int) * fact((i - k) as nat) == fact(i),
    decreases k,
{
    if k == 0 {
        assert(sign(0) * fact(0) == 1);
    } else {
        let k1 = (k - 1) as nat;
        lemma_weight_low(xs, t, i, k1);
        lemma_sign_step(k1);
        assert(xs[k1 as int] == k);
        assert(xs[i as int] == i + 1);
        let (n0, d0) = (lag_num(xs, i as int, k1 as int), lag_den(xs, i as int, k1 as int));
        assert(lag_num(xs, i as int, k as int) == n0 * (-xs[k1 as int]));
        assert(lag_den(xs, i as int, k as int) == d0 * (xs[i as int] - xs[k1 as int]));
        let (s0, f0) = (sign(k1), fact(k1) as int);
        assert(n0 * (-(k as int)) == sign(k) * fact(k)) by (nonlinear_arith)
            requires
                n0 == s0 * f0,
                sign(k) == -s0,
                fact(k) == k * f0,
        ;
        let r = (i - k) as nat;
        assert(fact((i - k1) as nat) == (r + 1) * fact(r));
        assert(d0 * (r + 1) * fact(r) == fact(i)) by (nonlinear_arith)
            requires
                d0 * fact((i - k1) as nat) == fact(i),
                fact((i - k1) as nat) == (r + 1) * fact(r),
        ;
        assert(xs[i as int] - xs[k1 as int] == r + 1);
    }
}

/// `(n + 1) C(n, m) == (n + 1 - m) C(n + 1, m)`.
proof fn lemma_binom_ratio(n: nat, m: nat)
    requires
        1 <= m,
    ensures
        (n + 1) * binom(n, m) == (n + 1 - m) * binom(n + 1, m),
{
    lemma_binom_absorb(n + 1, m);
    assert(binom(n + 1, m) == binom(n, (m - 1) as nat) + binom(n, m));
    let (a, b, c) = (binom(n, (m - 1) as nat) as int, binom(n, m) as int, binom(n + 1, m) as int);
    assert((n + 1) * b == (n + 1 - m) * c) by (nonlinear_arith)
        requires
            c == a + b,
            m * c == (n + 1) * a,
    ;
}

/// Past point `i`, the numerator is the denominator times
/// `(-1)^i C(k, i + 1)`.
proof fn lemma_weight_high(xs: Seq<i64>, t: nat, i: nat, k: nat)
    requires
        first_points(xs, t),
        i < k <= t,
    ensures
        lag_num(xs, i as int, k as int) == lag_den(xs, i as int, k as int) * (sign(i) * binom(k, i + 1)),
    decreases k,
{
    if k == i + 1 {
        lemma_weight_low(xs, t, i, i);
        lemma_binom_all(i + 1);
        assert(lag_num(xs, i as int, k as int) == lag_num(xs, i as int, i as int));
        assert(lag_den(xs, i as int, k as int) == lag_den(xs, i as int, i as int));
        assert(fact(0) == 1);
        let (d, f) = (lag_den(xs, i as int, i as int), fact(i) as int);
        assert(d * fact(0) == d) by (nonlinear_arith)
            requires
                fact(0) == 1,
        ;
        assert(lag_num(xs, i as int, i as int) == d * (sign(i) * 1)) by (nonlinear_arith)
            requires
                lag_num(xs, i as int, i as int) == sign(i) * f,
                d == f,
        ;
    } else {
        let k1 = (k - 1) as nat;
        lemma_weight_high(xs, t, i, k1);
        assert(xs[k1 as int] == k);
        assert(xs[i as int] == i + 1);
        let (n0, d0) = (lag_num(xs, i as int, k1 as int), lag_den(xs, i as int, k1 as int));
        assert(lag_num(xs, i as int, k as int) == n0 * (-xs[k1 as int]));
        assert(lag_den(xs, i as int, k as int) == d0 * (xs[i as int] - xs[k1 as int]));
        lemma_binom_ratio(k1, i + 1);
        let (c0, c1, sg) = (binom(k1, i + 1) as int, binom(k, i + 1) as int, sign(i));
        assert(n0 * (-(k as int)) == (d0 * ((i + 1) - (k as int))) * (sg * c1)) by (nonlinear_arith)
            requires
                n0 == d0 * (sg * c0),
                k * c0 == (k - (i + 1)) * c1,
        ;
    }
}

/// Truncating division of an exact multiple gives the factor back.
proof fn lemma_tdiv_exact(q: int, d: int)
    requires
        d != 0,
    ensures
        tdiv(q * d, d) == q,
{
    lemma_trunc_div_rem(q * d, d);
    let (t, r) = (tdiv(q * d, d), trem(q * d, d));
    assert((q - t) * d == r) by (nonlinear_arith)
        requires
            q * d == t * d + r,
    ;
    if q != t {
        assert(abs((q - t) * d) >= abs(d)) by (nonlinear_arith)
            requires
                q - t != 0,
        ;
    }
}

/// The constant term of a polynomial is its value at 0.
proof fn lemma_poly_at_zero(co: Seq<i64>, k: nat)
    requires
        1 <= k <= co.len(),
    ensures
        poly_at(co, 0, k) == co[0],
    decreases k,
{
    if k == 1 {
        assert(power(0, 0) == 1);
        assert(poly_at(co, 0, 0) == 0);
    } else {
        lemma_poly_at_zero(co, (k - 1) as nat);
        let e = (k - 1) as nat;
        assert(power(0, e) == 0 * power(0, (e - 1) as nat));
        assert(co[e as int] * power(0, e) == 0) by (nonlinear_arith)
            requires
                power(0, e) == 0,
        ;
    }
}

/// Shamir's round trip for every threshold: the first `t` shares of a
/// polynomial with `t` coefficients (taken at `1, ..., t`), interpolated at
/// 0 with truncating division, give back its constant term, the secret,
/// whenever the shares and the interpolation's intermediate values stay
/// within `i64`. Every division is exact: the Lagrange weight of point
/// `i + 1` is `(-1)^i C(t, i + 1)`.
pub proof fn lemma_shamir_roundtrip(co: Seq<i64>, n: nat, xs: Seq<i64>)
    requires
        1 <= co.len() <= n,
        first_points(xs, co.len()),
        split_ok(co, n),
        reconstruct_ok(shares_of(co, n).take(co.len() as int), xs),
    ensures
        recon_sum(shares_of(co, n).take(co.len() as int), xs, co.len() as int) == co[0],
{
    let t = co.len();
    let sh = shares_of(co, n).take(t as int);
    let f = |x: int| poly_at(co, x, t);
    assert forall|i: int| 0 <= i < t implies #[trigger] sh[i] as int == f(i + 1) by {
        assert(fits_i64(poly_at(co, i + 1, ((t - 1) as nat + 1) as nat)));
    }
    assert forall|j: nat| j <= t implies recon_sum(sh, xs, j as int) == f(0) - alt_partial(f, t, j + 1) by {
        lemma_recon_prefix(co, n, xs, j);
    }
    lemma_deg_poly(co, t);
    lemma_alt_vanishes(f, t);
    lemma_poly_at_zero(co, t);
    assert(recon_sum(sh, xs, t as int) == f(0) - alt_sum(f, t));
}

/// The reconstruction after `j` terms is `f(0)` less the alternating sum's
/// first `j + 1` terms.
proof fn lemma_recon_prefix(co: Seq<i64>, n: nat, xs: Seq<i64>, j: nat)
    requires
        1 <= co.len() <= n,
        first_points(xs, co.len()),
        split_ok(co, n),
        reconstruct_ok(shares_of(co, n).take(co.len() as int), xs),
        j <= co.len(),
    ensures
        recon_sum(shares_of(co, n).take(co.len() as int), xs, j as int) == poly_at(co, 0, co.len())
            - alt_partial(|x: int| poly_at(co, x, co.len()), co.len(), j + 1),
    decreases j,
{
    let t = co.len();
    let sh = shares_of(co, n).take(t as int);
    let f = |x: int| poly_at(co, x, t);
    if j == 0 {
        lemma_unit_term(t, f(0));
        assert(alt_partial(f, t, 0) == 0);
        assert(alt_partial(f, t, 1) == f(0));
    } else {
        let i = (j - 1) as nat;
        lemma_recon_prefix(co, n, xs, i);
        assert(fits_i64(poly_at(co, i + 1 as int, ((t - 1) as nat + 1) as nat)));
        assert(sh[i as int] as int == f(i + 1 as int));
        lemma_weight_high(xs, t, i, t);
        let d = lag_den(xs, i as int, t as int);
        assert(fits_i64(sh[i as int] * lag_num(xs, i as int, xs.len() as int)));
        assert(d != 0);
        let w = sign(i) * binom(t, i + 1);
        let v = sh[i as int] as int;
        assert(v * lag_num(xs, i as int, t as int) == (v * w) * d) by (nonlinear_arith)
            requires
                lag_num(xs, i as int, t as int) == d * w,
        ;
        lemma_tdiv_exact(v * w, d);
        assert(lag_term(sh, xs, i as int) == v * w);
        lemma_sign_step(i);
        assert(alt_partial(f, t, j + 1) == alt_partial(f, t, j) + sign(j) * binom(t, j) * f(j as int));
        let (sg, bn) = (sign(i), binom(t, i + 1) as int);
        assert(sign(j) * bn * f(j as int) == -(sg * bn * v)) by (nonlinear_arith)
            requires
                sign(j) == -sg,
                v == f(j as int),
        ;
    }
}

} // verus!
