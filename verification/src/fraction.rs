//! Fractions in lowest terms: each rational number has exactly one.

use crate::rational::Rational;
use crate::rational::coprime;
use vstd::arithmetic::div_mod::lemma_fundamental_div_mod;
use vstd::arithmetic::div_mod::lemma_mod_bound;
use vstd::arithmetic::div_mod::lemma_mod_multiples_basic;
use vstd::prelude::*;

verus! {

/// `n`/`d` is the fraction in lowest terms, with positive denominator, that
/// denotes `v`.
pub open spec fn is_fraction_of(n: int, d: int, v: real) -> bool {
    &&& d > 0
    &&& coprime(n, d)
    &&& n as real / d as real == v
}

/// `v` is a rational number.
pub open spec fn is_rational(v: real) -> bool {
    exists|n: int, d: int| is_fraction_of(n, d, v)
}

/// The fraction in lowest terms that denotes the rational number `v`, as
/// numerator and denominator.
pub open spec fn fraction_of(v: real) -> (int, int) {
    choose|p: (int, int)| is_fraction_of(p.0, p.1, v)
}

/// A multiple of `k` leaves no remainder on division by `k`.
#[verifier::spinoff_prover]
pub proof fn lemma_multiple_mod(k: int, m: int)
    requires
        k > 0,
    ensures
        (k * m) % k == 0,
{
    lemma_mod_multiples_basic(m, k);
    assert(k * m == m * k) by (nonlinear_arith);
}

/// What `k` divides is `k` times the quotient.
#[verifier::spinoff_prover]
pub proof fn lemma_divisible_is_multiple(x: int, k: int)
    requires
        k > 0,
        x % k == 0,
    ensures
        x == k * (x / k),
{
    lemma_fundamental_div_mod(x, k);
}

/// If `k` divides `x` and `y`, it divides `q`·`x` + `y`.
#[verifier::spinoff_prover]
pub proof fn lemma_divides_combination(k: int, x: int, y: int, q: int)
    requires
        k > 0,
        x % k == 0,
        y % k == 0,
    ensures
        (q * x + y) % k == 0,
{
    lemma_divisible_is_multiple(x, k);
    lemma_divisible_is_multiple(y, k);
    let xk = x / k;
    let yk = y / k;
    assert(q * (k * xk) + k * yk == k * (q * xk + yk)) by (nonlinear_arith);
    lemma_multiple_mod(k, q * xk + yk);
}

/// Rearranging a combination of `b` and the remainder of `a` by `b` into
/// one of `a` and `b`.
#[verifier::spinoff_prover]
pub proof fn lemma_bezout_step(a: int, b: int, q: int, r: int, x: int, y: int)
    requires
        a == b * q + r,
        b * x + r * y == 1,
    ensures
        a * y + b * (x - q * y) == 1,
{
    assert((b * q + r) * y + b * (x - q * y) == b * x + r * y) by (nonlinear_arith);
}

/// Two integers without a common divisor combine to one: there are `x` and
/// `y` with `a`·`x` + `b`·`y` = 1.
#[verifier::spinoff_prover]
pub proof fn lemma_bezout(a: int, b: int) -> (xy: (int, int))
    requires
        b >= 0,
        coprime(a, b),
    ensures
        a * xy.0 + b * xy.1 == 1,
    decreases b,
{
    if b == 0 {
        if a >= 2 {
            vstd::arithmetic::div_mod::lemma_mod_self_0(a);
            assert(a % a == 0 && 0int % a == 0);
            assert(false);
        }
        if a <= -2 {
            let k = -a;
            lemma_multiple_mod(k, -1);
            assert(k * (-1) == a) by (nonlinear_arith)
                requires
                    k == -a,
            ;
            assert(a % k == 0 && 0int % k == 0);
            assert(false);
        }
        if a == 0 {
            assert(0int % 2 == 0);
            assert(a % 2 == 0 && b % 2 == 0);
            assert(false);
        }
        assert(a == 1 || a == -1);
        assert(a * a + 0 * 0 == 1) by (nonlinear_arith)
            requires
                a == 1 || a == -1,
        ;
        (a, 0)
    } else {
        let q = a / b;
        let r = a % b;
        lemma_fundamental_div_mod(a, b);
        lemma_mod_bound(a, b);
        assert forall|k: int| k >= 2 implies !(#[trigger] (b % k) == 0 && r % k == 0) by {
            if b % k == 0 && r % k == 0 {
                lemma_divides_combination(k, b, r, q);
                assert(q * b + r == a) by (nonlinear_arith)
                    requires
                        a == b * q + r,
                ;
                assert(a % k == 0 && b % k == 0);
            }
        }
        let (x, y) = lemma_bezout(b, r);
        lemma_bezout_step(a, b, q, r, x, y);
        (y, x - q * y)
    }
}

/// Writing `c` as a multiple of `b`, given a combination of `a` and `b` to
/// one and `a`·`c` as a multiple of `b`.
#[verifier::spinoff_prover]
pub proof fn lemma_euclid_step(a: int, b: int, c: int, x: int, y: int, m: int)
    requires
        a * x + b * y == 1,
        a * c == b * m,
    ensures
        c == b * (m * x + c * y),
{
    assert(c * (a * x + b * y) == (a * c) * x + b * (c * y)) by (nonlinear_arith);
    assert((b * m) * x + b * (c * y) == b * (m * x + c * y)) by (nonlinear_arith);
    assert(c * 1 == c);
}

/// If `b` divides `a`·`c` and has no divisor in common with `a`, it divides
/// `c`.
#[verifier::spinoff_prover]
pub proof fn lemma_euclid(a: int, b: int, c: int)
    requires
        b > 0,
        coprime(a, b),
        (a * c) % b == 0,
    ensures
        c % b == 0,
{
    let (x, y) = lemma_bezout(a, b);
    lemma_divisible_is_multiple(a * c, b);
    let m = (a * c) / b;
    lemma_euclid_step(a, b, c, x, y, m);
    lemma_multiple_mod(b, m * x + c * y);
}

/// A positive multiple of `d` is at least `d`.
#[verifier::spinoff_prover]
pub proof fn lemma_multiple_at_least(x: int, d: int)
    requires
        d > 0,
        x > 0,
        x % d == 0,
    ensures
        x >= d,
{
    lemma_divisible_is_multiple(x, d);
    let q = x / d;
    assert(q >= 1) by (nonlinear_arith)
        requires
            x == d * q,
            d > 0,
            x > 0,
    ;
    assert(d * q >= d) by (nonlinear_arith)
        requires
            q >= 1,
            d > 0,
    ;
}

/// Two fractions in lowest terms that are equal as cross products are the
/// same fraction.
#[verifier::spinoff_prover]
pub proof fn lemma_lowest_terms_unique(n1: int, d1: int, n2: int, d2: int)
    requires
        d1 > 0,
        d2 > 0,
        coprime(n1, d1),
        coprime(n2, d2),
        n1 * d2 == n2 * d1,
    ensures
        n1 == n2,
        d1 == d2,
{
    lemma_multiple_mod(d1, n2);
    assert(d1 * n2 == n2 * d1) by (nonlinear_arith);
    lemma_euclid(n1, d1, d2);
    lemma_multiple_mod(d2, n1);
    assert(d2 * n1 == n1 * d2) by (nonlinear_arith);
    assert(n2 * d1 == d2 * n1);
    lemma_euclid(n2, d2, d1);
    lemma_multiple_at_least(d2, d1);
    lemma_multiple_at_least(d1, d2);
    assert(n1 == n2) by (nonlinear_arith)
        requires
            n1 * d2 == n2 * d1,
            d1 == d2,
            d1 > 0,
    ;
}

/// Quotients of integers are equal exactly when the cross products are.
#[verifier::spinoff_prover]
pub proof fn lemma_cross_product(n1: int, d1: int, n2: int, d2: int)
    requires
        d1 > 0,
        d2 > 0,
        n1 as real / d1 as real == n2 as real / d2 as real,
    ensures
        n1 * d2 == n2 * d1,
{
    let a = n1 as real;
    let b = d1 as real;
    let c = n2 as real;
    let d = d2 as real;
    assert(a * d == c * b) by (nonlinear_arith)
        requires
            b > 0real,
            d > 0real,
            a / b == c / d,
    ;
    assert((n1 * d2) as real == a * d) by (nonlinear_arith)
        requires
            a == n1 as real,
            d == d2 as real,
    ;
    assert((n2 * d1) as real == c * b) by (nonlinear_arith)
        requires
            c == n2 as real,
            b == d1 as real,
    ;
}

/// A rational number has only one fraction in lowest terms.
#[verifier::spinoff_prover]
pub proof fn lemma_fraction_unique(n1: int, d1: int, n2: int, d2: int, v: real)
    requires
        is_fraction_of(n1, d1, v),
        is_fraction_of(n2, d2, v),
    ensures
        n1 == n2,
        d1 == d2,
{
    lemma_cross_product(n1, d1, n2, d2);
    lemma_lowest_terms_unique(n1, d1, n2, d2);
}

/// The numerator and denominator that a canonical rational stores are those
/// of the fraction in lowest terms of the number it denotes.
#[verifier::spinoff_prover]
pub proof fn lemma_stored_fraction(x: &Rational)
    requires
        x.wf(),
    ensures
        is_rational(x@),
        fraction_of(x@) == (x.numer(), x.denom()),
{
    assert(is_fraction_of(x.numer(), x.denom(), x@));
    let p = fraction_of(x@);
    assert(is_fraction_of((x.numer(), x.denom()).0, (x.numer(), x.denom()).1, x@));
    assert(is_fraction_of(p.0, p.1, x@));
    lemma_fraction_unique(p.0, p.1, x.numer(), x.denom(), x@);
}

/// Two canonical rationals that denote the same number store the same
/// numerator and the same denominator.
#[verifier::spinoff_prover]
pub proof fn lemma_equal_values_same_fraction(a: &Rational, b: &Rational)
    requires
        a.wf(),
        b.wf(),
        a@ == b@,
    ensures
        a.numer() == b.numer(),
        a.denom() == b.denom(),
{
    lemma_fraction_unique(a.numer(), a.denom(), b.numer(), b.denom(), a@);
}

} // verus!
