//! Greatest common divisors: Euclid's algorithm, Bezout's identity and the
//! facts about lowest terms that exact fractions rest on.

use vstd::prelude::*;

verus! {

/// Euclid's algorithm on natural numbers. `gcd(a, 0) == a`.
pub open spec fn gcd(a: nat, b: nat) -> nat
    decreases b,
{
    if b == 0 {
        a
    } else {
        gcd(b, a % b)
    }
}

/// The absolute value of an integer, as a natural number.
pub open spec fn magnitude(n: int) -> nat {
    if n < 0 {
        (-n) as nat
    } else {
        n as nat
    }
}

/// `n / d` is in lowest terms: `d` is positive and shares no factor with `n`.
pub open spec fn lowest_terms(n: int, d: int) -> bool {
    d > 0 && gcd(magnitude(n), d as nat) == 1
}

/// The gcd is positive unless both arguments are zero.
pub proof fn lemma_gcd_positive(a: nat, b: nat)
    requires
        a > 0 || b > 0,
    ensures
        gcd(a, b) > 0,
    decreases b,
{
    if b != 0 {
        lemma_gcd_positive(b, a % b);
    }
}

/// The gcd divides both arguments; the two cofactors are returned.
pub proof fn lemma_gcd_divides(a: nat, b: nat) -> (k: (nat, nat))
    ensures
        a == k.0 * gcd(a, b),
        b == k.1 * gcd(a, b),
    decreases b,
{
    if b == 0 {
        assert(a == 1 * a);
        assert(0 == 0 * a);
        (1, 0)
    } else {
        let g = gcd(a, b);
        let r = a % b;
        let q = a / b;
        let k = lemma_gcd_divides(b, r);
        assert(a == q * b + r) by (nonlinear_arith)
            requires
                b > 0,
                q == a / b,
                r == a % b,
        ;
        assert(q * (k.0 * g) + k.1 * g == (q * k.0 + k.1) * g) by (nonlinear_arith);
        ((q * k.0 + k.1) as nat, k.0)
    }
}

/// Bezout's identity: integer coefficients that combine `a` and `b` to
/// their gcd.
pub proof fn lemma_bezout(a: nat, b: nat) -> (c: (int, int))
    ensures
        a * c.0 + b * c.1 == gcd(a, b),
    decreases b,
{
    if b == 0 {
        assert(a * 1 + 0 * 0 == a);
        (1, 0)
    } else {
        let r = a % b;
        let q = a / b;
        let c = lemma_bezout(b, r);
        assert(a == q * b + r) by (nonlinear_arith)
            requires
                b > 0,
                q == a / b,
                r == a % b,
        ;
        let x = c.1;
        let y = c.0 - q * c.1;
        assert(a * x + b * y == b * c.0 + r * c.1) by (nonlinear_arith)
            requires
                a == q * b + r,
                x == c.1,
                y == c.0 - q * c.1,
        ;
        (x, y)
    }
}

/// Dividing both arguments by their gcd leaves coprime numbers.
pub proof fn lemma_gcd_cofactors_coprime(a: nat, b: nat, ka: nat, kb: nat)
    requires
        gcd(a, b) > 0,
        a == ka * gcd(a, b),
        b == kb * gcd(a, b),
    ensures
        gcd(ka, kb) == 1,
{
    let g = gcd(a, b);
    let c = lemma_bezout(a, b);
    // ka * x + kb * y == 1
    assert((ka * c.0 + kb * c.1) * g == g) by (nonlinear_arith)
        requires
            a * c.0 + b * c.1 == g,
            a == ka * g,
            b == kb * g,
    ;
    assert(ka * c.0 + kb * c.1 == 1) by (nonlinear_arith)
        requires
            (ka * c.0 + kb * c.1) * g == g,
            g > 0,
    ;
    let h = gcd(ka, kb);
    let m = lemma_gcd_divides(ka, kb);
    assert((m.0 * c.0 + m.1 * c.1) * h == 1) by (nonlinear_arith)
        requires
            ka * c.0 + kb * c.1 == 1,
            ka == m.0 * h,
            kb == m.1 * h,
    ;
    assert(h == 1) by (nonlinear_arith)
        requires
            (m.0 * c.0 + m.1 * c.1) * h == 1,
            h >= 0,
    ;
}

/// A fraction in lowest terms is the smallest of its class: every other
/// fraction `c / d` with the same value is a positive multiple `k` of it.
pub proof fn lemma_lowest_terms_minimal(a: int, b: int, c: int, d: int) -> (k: int)
    requires
        lowest_terms(a, b),
        d > 0,
        c * b == a * d,
    ensures
        k >= 1,
        c == k * a,
        d == k * b,
{
    let m = magnitude(a);
    let bz = lemma_bezout(m, b as nat);
    // m * x + b * y == 1, and the sign of `a` moves into x.
    let x = if a < 0 { -bz.0 } else { bz.0 };
    let y = bz.1;
    assert(a * x + b * y == 1) by (nonlinear_arith)
        requires
            m * bz.0 + b * bz.1 == 1,
            x == (if a < 0 { -bz.0 } else { bz.0 }),
            y == bz.1,
            m == (if a < 0 { -a } else { a }),
    ;
    let k = c * x + d * y;
    assert(d == k * b) by (nonlinear_arith)
        requires
            a * x + b * y == 1,
            c * b == a * d,
            k == c * x + d * y,
    ;
    assert(k >= 1) by (nonlinear_arith)
        requires
            d == k * b,
            d > 0,
            b > 0,
    ;
    assert(c == k * a) by (nonlinear_arith)
        requires
            c * b == a * d,
            d == k * b,
            b > 0,
    ;
    k
}

/// Two fractions in lowest terms with the same value are the same fraction.
pub proof fn lemma_lowest_terms_unique(a: int, b: int, c: int, d: int)
    requires
        lowest_terms(a, b),
        lowest_terms(c, d),
        c * b == a * d,
    ensures
        a == c,
        b == d,
{
    let k = lemma_lowest_terms_minimal(a, b, c, d);
    let j = lemma_lowest_terms_minimal(c, d, a, b);
    assert(k == 1) by (nonlinear_arith)
        requires
            d == k * b,
            b == j * d,
            k >= 1,
            j >= 1,
            b > 0,
            d > 0,
    ;
    assert(c == a && d == b) by (nonlinear_arith)
        requires
            k == 1,
            c == k * a,
            d == k * b,
    ;
}

/// Euclid's algorithm on machine integers.
pub fn gcd_u128(a: u128, b: u128) -> (g: u128)
    ensures
        g == gcd(a as nat, b as nat),
{
    let mut x: u128 = a;
    let mut y: u128 = b;
    while y != 0
        invariant
            gcd(x as nat, y as nat) == gcd(a as nat, b as nat),
        decreases y,
    {
        let r: u128 = x % y;
        x = y;
        y = r;
    }
    x
}

} // verus!
