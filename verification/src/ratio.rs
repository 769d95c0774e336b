//! Exact rational scalars.
//!
//! A [`Ratio`] is either a fraction of two 64-bit integers, kept in lowest
//! terms, or the single value "not finite". Arithmetic is exact: a result is
//! the true rational result whenever that can be written with a numerator
//! and a denominator of at most `i64::MAX` in magnitude, and not finite
//! otherwise. Not finite is absorbing, and no comparison with it holds.

use vstd::prelude::*;
use crate::gcd::{gcd, gcd_u128, magnitude, lowest_terms, lemma_gcd_positive, lemma_gcd_divides,
    lemma_gcd_cofactors_coprime, lemma_lowest_terms_minimal, lemma_lowest_terms_unique};

verus! {

/// The real number `n / d`.
pub open spec fn fraction(n: int, d: int) -> real {
    (n as real) / (d as real)
}

/// `n / d` can be stored: a positive denominator, and both parts within
/// `i64::MAX` in magnitude.
pub open spec fn fits(n: int, d: int) -> bool {
    0 < d <= i64::MAX && -(i64::MAX as int) <= n <= i64::MAX
}

/// Some fraction that can be stored has the value `x`.
pub open spec fn representable(x: real) -> bool {
    exists|n: int, d: int| fits(n, d) && #[trigger] fraction(n, d) == x
}

/// An exact rational number, or "not finite".
#[derive(Debug, Clone, Copy, PartialEq, Eq, Structural)]
pub struct Ratio {
    num: i64,
    den: i64,
}

impl Ratio {
    /// The stored form is canonical: lowest terms with a positive
    /// denominator, or the one form that stands for "not finite". Every
    /// value that executable code holds is well formed.
    #[verifier::type_invariant]
    pub closed spec fn wf(self) -> bool {
        if self.den == 0 {
            self.num == 0
        } else {
            lowest_terms(self.num as int, self.den as int) && self.num != i64::MIN
        }
    }

    /// The number is an actual rational number.
    pub closed spec fn spec_is_finite(self) -> bool {
        self.den != 0
    }

    /// Whether the number is an actual rational number.
    #[verifier::when_used_as_spec(spec_is_finite)]
    pub fn is_finite(self) -> (b: bool)
        ensures
            b == self.spec_is_finite(),
    {
        self.den != 0
    }

    /// The real value of a finite number.
    pub closed spec fn value(self) -> real {
        fraction(self.num as int, self.den as int)
    }

    /// The value "not finite".
    pub closed spec fn spec_nan() -> Ratio {
        Ratio { num: 0, den: 0 }
    }

    /// The number that stands for the real `x`: the fraction with that value
    /// if one can be stored, and "not finite" otherwise.
    pub closed spec fn of(x: real) -> Ratio {
        if representable(x) {
            choose|r: Ratio| r.wf() && r.spec_is_finite() && r.value() == x
        } else {
            Ratio::spec_nan()
        }
    }

    /// The number that stands for `n / d`; not finite when `d` is zero.
    pub open spec fn from_fraction(n: int, d: int) -> Ratio {
        if d == 0 {
            Ratio::spec_nan()
        } else {
            Ratio::of(fraction(n, d))
        }
    }

    /// The number is finite and has the value `n / d`, which no number has
    /// when `d` is zero.
    pub open spec fn is_fraction(self, n: int, d: int) -> bool {
        d != 0 && self.spec_is_finite() && self.value() == fraction(n, d)
    }

    /// The numerator of the stored fraction; zero for "not finite".
    pub closed spec fn spec_numer(self) -> i64 {
        self.num
    }

    /// The denominator of the stored fraction; zero for "not finite".
    pub closed spec fn spec_denom(self) -> i64 {
        self.den
    }

    /// The parts of a well-formed number: a fraction in lowest terms that
    /// has the number's value, or two zeros for "not finite".
    pub open spec fn parts_are(self, n: int, d: int) -> bool {
        if self.spec_is_finite() {
            lowest_terms(n, d) && fits(n, d) && self.value() == fraction(n, d)
        } else {
            n == 0 && d == 0
        }
    }

    /// The sum; not finite if either operand is, or if the sum cannot be
    /// stored.
    pub open spec fn spec_add(self, rhs: Ratio) -> Ratio {
        if self.spec_is_finite() && rhs.spec_is_finite() {
            Ratio::of(self.value() + rhs.value())
        } else {
            Ratio::spec_nan()
        }
    }

    /// The difference; not finite if either operand is, or if the
    /// difference cannot be stored.
    pub open spec fn spec_sub(self, rhs: Ratio) -> Ratio {
        if self.spec_is_finite() && rhs.spec_is_finite() {
            Ratio::of(self.value() - rhs.value())
        } else {
            Ratio::spec_nan()
        }
    }

    /// The product; not finite if either operand is, or if the product
    /// cannot be stored.
    pub open spec fn spec_mul(self, rhs: Ratio) -> Ratio {
        if self.spec_is_finite() && rhs.spec_is_finite() {
            Ratio::of(self.value() * rhs.value())
        } else {
            Ratio::spec_nan()
        }
    }

    /// The quotient; not finite if either operand is, if the divisor is
    /// zero, or if the quotient cannot be stored.
    pub open spec fn spec_div(self, rhs: Ratio) -> Ratio {
        if self.spec_is_finite() && rhs.spec_is_finite() && rhs.value() != 0 as real {
            Ratio::of(self.value() / rhs.value())
        } else {
            Ratio::spec_nan()
        }
    }

    /// The absolute value; not finite for a number that is not finite.
    pub open spec fn spec_abs(self) -> Ratio {
        if self.spec_is_finite() {
            Ratio::of(if self.value() < 0 as real { -self.value() } else { self.value() })
        } else {
            Ratio::spec_nan()
        }
    }

    /// Strictly less; false when either operand is not finite.
    pub open spec fn spec_lt(self, rhs: Ratio) -> bool {
        self.spec_is_finite() && rhs.spec_is_finite() && self.value() < rhs.value()
    }

    /// Less or equal; false when either operand is not finite.
    pub open spec fn spec_le(self, rhs: Ratio) -> bool {
        self.spec_is_finite() && rhs.spec_is_finite() && self.value() <= rhs.value()
    }

    /// The greatest whole number that is not above the value.
    pub open spec fn spec_floor(self) -> int {
        self.value().floor()
    }

    /// The nearest whole number, a tie going up.
    pub open spec fn spec_round(self) -> int {
        (self.value() + fraction(1, 2)).floor()
    }

    /// The greatest whole number that is not above `value * scale`.
    pub open spec fn spec_scaled_floor(self, scale: int) -> int {
        (self.value() * (scale as real)).floor()
    }

    /// The whole number nearest to `value * scale`, a tie going up.
    pub open spec fn spec_scaled_round(self, scale: int) -> int {
        (self.value() * (scale as real) + fraction(1, 2)).floor()
    }
}

impl Ratio {
    /// Brings `n / d` to lowest terms and stores it, if it can be stored.
    fn reduce(n: i128, d: i128) -> (r: Ratio)
        requires
            n > i128::MIN,
            d > i128::MIN,
        ensures
            r == Ratio::from_fraction(n as int, d as int),
            r.wf(),
    {
        if d == 0 {
            return Ratio { num: 0, den: 0 };
        }
        let negative = (n < 0) != (d < 0);
        let un: u128 = if n < 0 { (-n) as u128 } else { n as u128 };
        let ud: u128 = if d < 0 { (-d) as u128 } else { d as u128 };
        let g = gcd_u128(un, ud);
        proof {
            lemma_gcd_positive(un as nat, ud as nat);
        }
        let qn: u128 = un / g;
        let qd: u128 = ud / g;
        let ghost sn: int = if d < 0 { -(n as int) } else { n as int };
        let ghost p = Ratio::lemma_lowest_form(sn, ud as int);
        proof {
            assert(sn * d == n * ud) by (nonlinear_arith)
                requires
                    sn == (if d < 0 { -(n as int) } else { n as int }),
                    ud == (if d < 0 { -(d as int) } else { d as int }),
            ;
            lemma_fraction_eq(sn, ud as int, n as int, d as int);
            assert(magnitude(sn) == un);
            assert(qn == magnitude(p.0) && qd == p.1) by (nonlinear_arith)
                requires
                    un == magnitude(p.0) * g,
                    ud == p.1 * g,
                    qn == un / g,
                    qd == ud / g,
                    g > 0,
            ;
            Ratio::lemma_of(fraction(n as int, d as int));
        }
        if qn > i64::MAX as u128 || qd > i64::MAX as u128 {
            return Ratio { num: 0, den: 0 };
        }
        let num: i64 = if negative { -(qn as i64) } else { qn as i64 };
        let r = Ratio { num, den: qd as i64 };
        proof {
            assert(num == p.0);
            r.lemma_of_value();
        }
        r
    }

    /// The fraction `num / den`; not finite when `den` is zero or when
    /// `num` is `i64::MIN` and does not reduce.
    pub fn new(num: i64, den: i64) -> (r: Ratio)
        ensures
            r == Ratio::from_fraction(num as int, den as int),
    {
        Ratio::reduce(num as i128, den as i128)
    }

    /// The whole number `n`.
    pub fn from_int(n: i64) -> (r: Ratio)
        ensures
            r == Ratio::from_fraction(n as int, 1),
    {
        Ratio::reduce(n as i128, 1)
    }

    /// The value "not finite".
    pub fn nan() -> (r: Ratio)
        ensures
            r == Ratio::spec_nan(),
    {
        Ratio { num: 0, den: 0 }
    }

    /// The numerator of the fraction in lowest terms; zero for "not finite".
    pub fn numer(self) -> (n: i64)
        ensures
            n == self.spec_numer(),
            self.parts_are(n as int, self.spec_denom() as int),
    {
        proof {
            use_type_invariant(&self);
            self.lemma_parts();
        }
        self.num
    }

    /// The denominator of the fraction in lowest terms, which is positive;
    /// zero for "not finite".
    pub fn denom(self) -> (d: i64)
        ensures
            d == self.spec_denom(),
            self.parts_are(self.spec_numer() as int, d as int),
    {
        proof {
            use_type_invariant(&self);
            self.lemma_parts();
        }
        self.den
    }

    /// Exact addition.
    pub fn add(self, rhs: Ratio) -> (r: Ratio)
        ensures
            r == self.spec_add(rhs),
    {
        proof {
            use_type_invariant(&self);
            use_type_invariant(&rhs);
        }
        if self.den == 0 || rhs.den == 0 {
            return Ratio { num: 0, den: 0 };
        }
        proof {
            lemma_fraction_arith(self.num as int, self.den as int, rhs.num as int, rhs.den as int);
            Ratio::lemma_product_bound(self.num as int, rhs.den as int);
            Ratio::lemma_product_bound(rhs.num as int, self.den as int);
            Ratio::lemma_product_bound(self.den as int, rhs.den as int);
        }
        let n: i128 = (self.num as i128) * (rhs.den as i128) + (rhs.num as i128) * (self.den as i128);
        let d: i128 = (self.den as i128) * (rhs.den as i128);
        Ratio::reduce(n, d)
    }

    /// Exact subtraction.
    pub fn sub(self, rhs: Ratio) -> (r: Ratio)
        ensures
            r == self.spec_sub(rhs),
    {
        proof {
            use_type_invariant(&self);
            use_type_invariant(&rhs);
        }
        if self.den == 0 || rhs.den == 0 {
            return Ratio { num: 0, den: 0 };
        }
        proof {
            lemma_fraction_arith(self.num as int, self.den as int, rhs.num as int, rhs.den as int);
            Ratio::lemma_product_bound(self.num as int, rhs.den as int);
            Ratio::lemma_product_bound(rhs.num as int, self.den as int);
            Ratio::lemma_product_bound(self.den as int, rhs.den as int);
        }
        let n: i128 = (self.num as i128) * (rhs.den as i128) - (rhs.num as i128) * (self.den as i128);
        let d: i128 = (self.den as i128) * (rhs.den as i128);
        Ratio::reduce(n, d)
    }

    /// Exact multiplication.
    pub fn mul(self, rhs: Ratio) -> (r: Ratio)
        ensures
            r == self.spec_mul(rhs),
    {
        proof {
            use_type_invariant(&self);
            use_type_invariant(&rhs);
        }
        if self.den == 0 || rhs.den == 0 {
            return Ratio { num: 0, den: 0 };
        }
        proof {
            lemma_fraction_arith(self.num as int, self.den as int, rhs.num as int, rhs.den as int);
            Ratio::lemma_product_bound(self.num as int, rhs.num as int);
            Ratio::lemma_product_bound(self.den as int, rhs.den as int);
        }
        let n: i128 = (self.num as i128) * (rhs.num as i128);
        let d: i128 = (self.den as i128) * (rhs.den as i128);
        Ratio::reduce(n, d)
    }

    /// Exact division.
    pub fn div(self, rhs: Ratio) -> (r: Ratio)
        ensures
            r == self.spec_div(rhs),
    {
        proof {
            use_type_invariant(&self);
            use_type_invariant(&rhs);
        }
        if self.den == 0 || rhs.den == 0 || rhs.num == 0 {
            proof {
                if self.den != 0 && rhs.den != 0 {
                    lemma_fraction_arith(
                        self.num as int,
                        self.den as int,
                        rhs.num as int,
                        rhs.den as int,
                    );
                }
            }
            return Ratio { num: 0, den: 0 };
        }
        proof {
            lemma_fraction_arith(self.num as int, self.den as int, rhs.num as int, rhs.den as int);
            Ratio::lemma_product_bound(self.num as int, rhs.den as int);
            Ratio::lemma_product_bound(self.den as int, rhs.num as int);
            assert((self.den as int) * (rhs.num as int) != 0) by (nonlinear_arith)
                requires
                    self.den != 0,
                    rhs.num != 0,
            ;
        }
        let n: i128 = (self.num as i128) * (rhs.den as i128);
        let d: i128 = (self.den as i128) * (rhs.num as i128);
        Ratio::reduce(n, d)
    }

    /// The absolute value.
    pub fn abs(self) -> (r: Ratio)
        ensures
            r == self.spec_abs(),
    {
        proof {
            use_type_invariant(&self);
        }
        if self.den == 0 {
            return Ratio { num: 0, den: 0 };
        }
        proof {
            lemma_fraction_lt(self.num as int, self.den as int, 0, 1);
            lemma_fraction_arith(0, 1, self.num as int, self.den as int);
            assert(fraction(0, 1) == 0 as real);
        }
        if self.num < 0 {
            let r = Ratio { num: -self.num, den: self.den };
            proof {
                assert(magnitude(r.num as int) == magnitude(self.num as int));
                assert(r.value() == -self.value());
                r.lemma_of_value();
            }
            r
        } else {
            proof {
                self.lemma_of_value();
            }
            self
        }
    }

    /// Strictly less than `rhs`; false when either is not finite.
    pub fn lt(self, rhs: Ratio) -> (b: bool)
        ensures
            b == self.spec_lt(rhs),
    {
        proof {
            use_type_invariant(&self);
            use_type_invariant(&rhs);
        }
        if self.den == 0 || rhs.den == 0 {
            return false;
        }
        proof {
            lemma_fraction_lt(self.num as int, self.den as int, rhs.num as int, rhs.den as int);
            Ratio::lemma_product_bound(self.num as int, rhs.den as int);
            Ratio::lemma_product_bound(rhs.num as int, self.den as int);
        }
        (self.num as i128) * (rhs.den as i128) < (rhs.num as i128) * (self.den as i128)
    }

    /// Less than or equal to `rhs`; false when either is not finite.
    pub fn le(self, rhs: Ratio) -> (b: bool)
        ensures
            b == self.spec_le(rhs),
    {
        proof {
            use_type_invariant(&self);
            use_type_invariant(&rhs);
        }
        if self.den == 0 || rhs.den == 0 {
            return false;
        }
        proof {
            lemma_fraction_lt(self.num as int, self.den as int, rhs.num as int, rhs.den as int);
            Ratio::lemma_product_bound(self.num as int, rhs.den as int);
            Ratio::lemma_product_bound(rhs.num as int, self.den as int);
        }
        (self.num as i128) * (rhs.den as i128) <= (rhs.num as i128) * (self.den as i128)
    }

    /// Whether the number is finite and equal to `n / d`.
    pub fn equals_fraction(self, n: i64, d: i64) -> (b: bool)
        ensures
            b == self.is_fraction(n as int, d as int),
    {
        proof {
            use_type_invariant(&self);
        }
        if self.den == 0 || d == 0 {
            return false;
        }
        proof {
            lemma_fraction_eq(self.num as int, self.den as int, n as int, d as int);
            Ratio::lemma_product_bound(d as int, self.num as int);
            Ratio::lemma_product_bound(n as int, self.den as int);
        }
        (self.num as i128) * (d as i128) == (n as i128) * (self.den as i128)
    }

    /// The floor of the value; `None` exactly when the number is not finite.
    pub fn floor(self) -> (r: Option<i64>)
        ensures
            r.is_some() == self.spec_is_finite(),
            r matches Some(k) ==> k == self.spec_floor(),
    {
        proof {
            use_type_invariant(&self);
        }
        if self.den == 0 {
            return None;
        }
        proof {
            self.lemma_whole_bounds();
        }
        let k = floor_quotient(self.num as i128, self.den as i128);
        Some(k as i64)
    }

    /// The nearest whole number, a tie going up; `None` exactly when the
    /// number is not finite.
    pub fn round(self) -> (r: Option<i64>)
        ensures
            r.is_some() == self.spec_is_finite(),
            r matches Some(k) ==> k == self.spec_round(),
    {
        proof {
            use_type_invariant(&self);
        }
        if self.den == 0 {
            return None;
        }
        proof {
            self.lemma_whole_bounds();
            lemma_fraction_arith(self.num as int, self.den as int, 1, 2);
        }
        let k = floor_quotient(2 * (self.num as i128) + (self.den as i128), 2 * (self.den as i128));
        Some(k as i64)
    }

    /// The floor of `value * scale`; `None` exactly when the number is not
    /// finite.
    pub fn scaled_floor(self, scale: i64) -> (r: Option<i128>)
        ensures
            r.is_some() == self.spec_is_finite(),
            r matches Some(k) ==> k == self.spec_scaled_floor(scale as int),
    {
        proof {
            use_type_invariant(&self);
        }
        if self.den == 0 {
            return None;
        }
        proof {
            Ratio::lemma_product_bound(scale as int, self.num as int);
            lemma_fraction_arith(self.num as int, self.den as int, scale as int, 1);
            lemma_fraction_whole(scale as int);
        }
        let k = floor_quotient((self.num as i128) * (scale as i128), self.den as i128);
        Some(k)
    }

    /// The whole number nearest to `value * scale`, a tie going up; `None`
    /// exactly when the number is not finite.
    pub fn scaled_round(self, scale: i64) -> (r: Option<i128>)
        ensures
            r.is_some() == self.spec_is_finite(),
            r matches Some(k) ==> k == self.spec_scaled_round(scale as int),
    {
        proof {
            use_type_invariant(&self);
        }
        if self.den == 0 {
            return None;
        }
        proof {
            Ratio::lemma_product_bound(scale as int, self.num as int);
            lemma_fraction_arith(self.num as int, self.den as int, scale as int, 1);
            lemma_fraction_whole(scale as int);
            lemma_fraction_arith((self.num as int) * (scale as int), self.den as int, 1, 2);
            assert((self.num as int) * (scale as int) * 2 == 2 * ((self.num as int) * (
            scale as int)));
            assert((self.den as int) * 1 == self.den as int);
        }
        let k = floor_quotient(
            2 * ((self.num as i128) * (scale as i128)) + (self.den as i128),
            2 * (self.den as i128),
        );
        Some(k)
    }
}

/// Division of machine integers that rounds toward negative infinity.
fn floor_quotient(n: i128, d: i128) -> (k: i128)
    requires
        d > 0,
        n > i128::MIN,
    ensures
        k * d <= n < (k + 1) * d,
        k == fraction(n as int, d as int).floor(),
{
    let ud: u128 = d as u128;
    let k: i128 = if n >= 0 {
        let q: u128 = (n as u128) / ud;
        proof {
            assert(q * ud <= n < (q + 1) * ud && q <= n) by (nonlinear_arith)
                requires
                    q == (n as int) / (ud as int),
                    ud > 0,
                    n >= 0,
            ;
        }
        q as i128
    } else {
        let m: u128 = (-n) as u128;
        let q: u128 = m / ud;
        let r: u128 = m % ud;
        proof {
            assert(m == q * ud + r && 0 <= r < ud && q <= m) by (nonlinear_arith)
                requires
                    q == (m as int) / (ud as int),
                    r == (m as int) % (ud as int),
                    ud > 0,
            ;
        }
        if r == 0 {
            proof {
                assert((-(q as int)) * d <= n < (-(q as int) + 1) * d) by (nonlinear_arith)
                    requires
                        -n == q * d,
                        d > 0,
                ;
            }
            -(q as i128)
        } else {
            proof {
                assert((-(q as int) - 1) * d <= n < (-(q as int) - 1 + 1) * d) by (nonlinear_arith)
                    requires
                        -n == q * d + r,
                        0 < r < d,
                ;
            }
            -(q as i128) - 1
        }
    };
    proof {
        lemma_fraction_floor(n as int, d as int, k as int);
    }
    k
}

/// Fractions with non-zero denominators are equal as reals exactly when
/// they are equal by cross-multiplication.
pub proof fn lemma_fraction_eq(a: int, b: int, c: int, d: int)
    requires
        b != 0,
        d != 0,
    ensures
        fraction(a, b) == fraction(c, d) <==> a * d == c * b,
{
    assert(((a as real) / (b as real) == (c as real) / (d as real)) <==> (a as real) * (d as real)
        == (c as real) * (b as real)) by (nonlinear_arith)
        requires
            b != 0,
            d != 0,
    ;
    assert((a as real) * (d as real) == ((a * d) as real)) by (nonlinear_arith);
    assert((c as real) * (b as real) == ((c * b) as real)) by (nonlinear_arith);
}

/// Fractions with positive denominators are ordered as reals exactly as
/// they are by cross-multiplication.
pub proof fn lemma_fraction_lt(a: int, b: int, c: int, d: int)
    requires
        b > 0,
        d > 0,
    ensures
        fraction(a, b) < fraction(c, d) <==> a * d < c * b,
        fraction(a, b) <= fraction(c, d) <==> a * d <= c * b,
{
    assert(((a as real) / (b as real) < (c as real) / (d as real)) <==> (a as real) * (d as real)
        < (c as real) * (b as real)) by (nonlinear_arith)
        requires
            b > 0,
            d > 0,
    ;
    assert(((a as real) / (b as real) <= (c as real) / (d as real)) <==> (a as real) * (d as real)
        <= (c as real) * (b as real)) by (nonlinear_arith)
        requires
            b > 0,
            d > 0,
    ;
    assert((a as real) * (d as real) == ((a * d) as real)) by (nonlinear_arith);
    assert((c as real) * (b as real) == ((c * b) as real)) by (nonlinear_arith);
}

/// The sum, difference, product and quotient of two fractions, as a fraction.
pub proof fn lemma_fraction_arith(a: int, b: int, c: int, d: int)
    requires
        b != 0,
        d != 0,
    ensures
        fraction(a, b) + fraction(c, d) == fraction(a * d + c * b, b * d),
        fraction(a, b) - fraction(c, d) == fraction(a * d - c * b, b * d),
        fraction(a, b) * fraction(c, d) == fraction(a * c, b * d),
        c != 0 ==> fraction(a, b) / fraction(c, d) == fraction(a * d, b * c),
        (fraction(c, d) == 0 as real) <==> c == 0,
        b * d != 0,
{
    assert((a as real) / (b as real) + (c as real) / (d as real) == ((a * d + c * b) as real) / ((b
        * d) as real)) by (nonlinear_arith)
        requires
            b != 0,
            d != 0,
    ;
    assert((a as real) / (b as real) - (c as real) / (d as real) == ((a * d - c * b) as real) / ((b
        * d) as real)) by (nonlinear_arith)
        requires
            b != 0,
            d != 0,
    ;
    assert((a as real) / (b as real) * ((c as real) / (d as real)) == ((a * c) as real) / ((b
        * d) as real)) by (nonlinear_arith)
        requires
            b != 0,
            d != 0,
    ;
    assert(c != 0 ==> ((a as real) / (b as real)) / ((c as real) / (d as real)) == ((a
        * d) as real) / ((b * c) as real)) by (nonlinear_arith)
        requires
            b != 0,
            d != 0,
    ;
    assert(((c as real) / (d as real) == 0 as real) <==> c == 0) by (nonlinear_arith)
        requires
            d != 0,
    ;
    assert(b * d != 0) by (nonlinear_arith)
        requires
            b != 0,
            d != 0,
    ;
}

/// A fraction with denominator one is its numerator.
pub proof fn lemma_fraction_whole(n: int)
    ensures
        fraction(n, 1) == n as real,
{
    assert((n as real) / (1 as real) == n as real) by (nonlinear_arith);
}

/// The whole number `k` with `k * d <= n < (k + 1) * d` is the floor of
/// `n / d`.
pub proof fn lemma_fraction_floor(n: int, d: int, k: int)
    requires
        d > 0,
        k * d <= n < (k + 1) * d,
    ensures
        fraction(n, d).floor() == k,
{
    assert((k as real) <= (n as real) / (d as real) < ((k + 1) as real)) by (nonlinear_arith)
        requires
            d > 0,
            k * d <= n < (k + 1) * d,
    ;
}

impl Ratio {
    /// What `of` yields: a well-formed number; for a representable real the
    /// finite number with that value, and otherwise "not finite".
    pub proof fn lemma_of(x: real)
        ensures
            Ratio::of(x).wf(),
            representable(x) ==> Ratio::of(x).spec_is_finite() && Ratio::of(x).value() == x,
            !representable(x) ==> Ratio::of(x) == Ratio::spec_nan(),
    {
        if representable(x) {
            let (n, d) = choose|n: int, d: int| fits(n, d) && #[trigger] fraction(n, d) == x;
            let w = Ratio::lemma_reduced(n, d);
            assert(w.wf() && w.spec_is_finite() && w.value() == x);
        }
    }

    /// Well-formed finite numbers with the same value are the same number.
    pub proof fn lemma_value_unique(self, other: Ratio)
        requires
            self.wf(),
            other.wf(),
            self.spec_is_finite(),
            other.spec_is_finite(),
            self.value() == other.value(),
        ensures
            self == other,
    {
        lemma_fraction_eq(self.num as int, self.den as int, other.num as int, other.den as int);
        lemma_lowest_terms_unique(self.num as int, self.den as int, other.num as int, other.den as int);
    }

    /// The value of a well-formed finite number is representable, and the
    /// number that stands for it is that number.
    pub proof fn lemma_of_value(self)
        requires
            self.wf(),
            self.spec_is_finite(),
        ensures
            representable(self.value()),
            Ratio::of(self.value()) == self,
    {
        assert(fits(self.num as int, self.den as int));
        assert(fraction(self.num as int, self.den as int) == self.value());
        let r = Ratio::of(self.value());
        assert(r.wf() && r.spec_is_finite() && r.value() == self.value());
        r.lemma_value_unique(self);
    }

    /// A fraction that fits is stored with its exact value.
    pub proof fn lemma_from_fraction(n: int, d: int)
        requires
            fits(n, d),
        ensures
            Ratio::from_fraction(n, d).wf(),
            Ratio::from_fraction(n, d).spec_is_finite(),
            Ratio::from_fraction(n, d).value() == fraction(n, d),
    {
        assert(fraction(n, d) == fraction(n, d));
        Ratio::lemma_of(fraction(n, d));
    }

    /// A whole number within `i64::MAX` in magnitude is stored exactly.
    pub proof fn lemma_from_int(n: int)
        requires
            -(i64::MAX as int) <= n <= i64::MAX,
        ensures
            Ratio::from_fraction(n, 1).wf(),
            Ratio::from_fraction(n, 1).spec_is_finite(),
            Ratio::from_fraction(n, 1).value() == n as real,
    {
        Ratio::lemma_from_fraction(n, 1);
        lemma_fraction_whole(n);
    }

    /// "Not finite" is well formed and not finite.
    pub proof fn lemma_nan()
        ensures
            Ratio::spec_nan().wf(),
            !Ratio::spec_nan().spec_is_finite(),
    {
    }

    /// The stored parts of a well-formed number are its parts.
    pub proof fn lemma_parts(self)
        requires
            self.wf(),
        ensures
            self.parts_are(self.spec_numer() as int, self.spec_denom() as int),
    {
    }

    /// A finite sum is the sum of two finite numbers.
    pub proof fn lemma_add(self, rhs: Ratio)
        ensures
            self.spec_add(rhs).wf(),
            self.spec_add(rhs).spec_is_finite() ==> self.spec_is_finite() && rhs.spec_is_finite()
                && self.spec_add(rhs).value() == self.value() + rhs.value(),
    {
        Ratio::lemma_of(self.value() + rhs.value());
    }

    /// A finite difference is the difference of two finite numbers.
    pub proof fn lemma_sub(self, rhs: Ratio)
        ensures
            self.spec_sub(rhs).wf(),
            self.spec_sub(rhs).spec_is_finite() ==> self.spec_is_finite() && rhs.spec_is_finite()
                && self.spec_sub(rhs).value() == self.value() - rhs.value(),
    {
        Ratio::lemma_of(self.value() - rhs.value());
    }

    /// A finite product is the product of two finite numbers.
    pub proof fn lemma_mul(self, rhs: Ratio)
        ensures
            self.spec_mul(rhs).wf(),
            self.spec_mul(rhs).spec_is_finite() ==> self.spec_is_finite() && rhs.spec_is_finite()
                && self.spec_mul(rhs).value() == self.value() * rhs.value(),
    {
        Ratio::lemma_of(self.value() * rhs.value());
    }

    /// A finite quotient is the quotient of two finite numbers, the second
    /// of which is not zero.
    pub proof fn lemma_div(self, rhs: Ratio)
        ensures
            self.spec_div(rhs).wf(),
            self.spec_div(rhs).spec_is_finite() ==> self.spec_is_finite() && rhs.spec_is_finite()
                && rhs.value() != 0 as real && self.spec_div(rhs).value() == self.value()
                / rhs.value(),
    {
        Ratio::lemma_of(self.value() / rhs.value());
    }

    /// An absolute value that is finite is that of a finite number.
    pub proof fn lemma_abs_finite(self)
        ensures
            self.spec_abs().spec_is_finite() ==> self.spec_is_finite(),
    {
    }

    /// The absolute value of a finite number is finite and has the
    /// absolute value of its value.
    pub proof fn lemma_abs(self)
        requires
            self.wf(),
            self.spec_is_finite(),
        ensures
            self.spec_abs().wf(),
            self.spec_abs().spec_is_finite(),
            self.spec_abs().value() == (if self.value() < 0 as real {
                -self.value()
            } else {
                self.value()
            }),
    {
        let n = self.num as int;
        let d = self.den as int;
        let m = magnitude(n) as int;
        lemma_fraction_lt(n, d, 0, 1);
        lemma_fraction_arith(0, 1, n, d);
        lemma_fraction_whole(0);
        assert(fits(m, d));
        assert(fraction(m, d) == (if self.value() < 0 as real {
            -self.value()
        } else {
            self.value()
        }));
        Ratio::lemma_of(fraction(m, d));
    }

    /// A finite number lies within the 64-bit range, and so do its floor
    /// and its nearest whole number.
    pub proof fn lemma_whole_bounds(self)
        requires
            self.wf(),
            self.spec_is_finite(),
        ensures
            -(i64::MAX as real) <= self.value() <= i64::MAX as real,
            -(i64::MAX as int) <= self.spec_floor() <= i64::MAX,
            -(i64::MAX as int) <= self.spec_round() <= i64::MAX,
    {
        let n = self.num as int;
        let d = self.den as int;
        assert(-(0x7fff_ffff_ffff_ffff as real) <= (n as real) / (d as real)
            <= 0x7fff_ffff_ffff_ffff as real) by (nonlinear_arith)
            requires
                d >= 1,
                -0x7fff_ffff_ffff_ffff <= n <= 0x7fff_ffff_ffff_ffff,
        ;
        lemma_fraction_whole(n);
        assert(0 as real <= fraction(1, 2) < 1 as real && fraction(1, 2) + fraction(1, 2)
            == 1 as real) by (nonlinear_arith);
        if d != 1 {
            assert(-(0x7fff_ffff_ffff_ffff as real) <= (n as real) / (d as real) + (n as real) / (
            d as real) <= 0x7fff_ffff_ffff_ffff as real) by (nonlinear_arith)
                requires
                    d >= 2,
                    -0x7fff_ffff_ffff_ffff <= n <= 0x7fff_ffff_ffff_ffff,
            ;
        }
    }

    /// The lowest-terms form of `n / d`, for a positive `d`: its parts are
    /// the cofactors of the gcd, and it has the value `n / d`. If it cannot
    /// be stored, no fraction of that value can.
    proof fn lemma_lowest_form(n: int, d: int) -> (p: (int, int))
        requires
            d > 0,
        ensures
            lowest_terms(p.0, p.1),
            magnitude(n) == magnitude(p.0) * gcd(magnitude(n), d as nat),
            d == p.1 * gcd(magnitude(n), d as nat),
            (n < 0) == (p.0 < 0),
            fraction(p.0, p.1) == fraction(n, d),
            !fits(p.0, p.1) ==> !representable(fraction(n, d)),
    {
        let m = magnitude(n);
        let g = gcd(m, d as nat);
        lemma_gcd_positive(m, d as nat);
        let k = lemma_gcd_divides(m, d as nat);
        lemma_gcd_cofactors_coprime(m, d as nat, k.0, k.1);
        let a: int = if n < 0 { -(k.0 as int) } else { k.0 as int };
        let b: int = k.1 as int;
        assert(b > 0) by (nonlinear_arith)
            requires
                d == b * g,
                d > 0,
                g > 0,
        ;
        assert(n < 0 ==> k.0 > 0) by (nonlinear_arith)
            requires
                m == k.0 * g,
                m == magnitude(n),
                g > 0,
        ;
        assert(magnitude(a) == k.0);
        assert(a * d == n * b) by (nonlinear_arith)
            requires
                m == k.0 * g,
                d == b * g,
                a == (if n < 0 { -(k.0 as int) } else { k.0 as int }),
                m == (if n < 0 { -n } else { n }),
        ;
        lemma_fraction_eq(a, b, n, d);
        if !fits(a, b) {
            assert forall|c: int, e: int| fits(c, e) implies #[trigger] fraction(c, e) != fraction(
                n,
                d,
            ) by {
                if fraction(c, e) == fraction(n, d) {
                    lemma_fraction_eq(c, e, a, b);
                    let j = lemma_lowest_terms_minimal(a, b, c, e);
                    assert(e >= b && magnitude(c) >= magnitude(a)) by (nonlinear_arith)
                        requires
                            j >= 1,
                            c == j * a,
                            e == j * b,
                            b > 0,
                    ;
                }
            }
        }
        (a, b)
    }

    /// A storable fraction has a well-formed finite number of its value.
    proof fn lemma_reduced(n: int, d: int) -> (w: Ratio)
        requires
            fits(n, d),
        ensures
            w.wf(),
            w.spec_is_finite(),
            w.value() == fraction(n, d),
    {
        let p = Ratio::lemma_lowest_form(n, d);
        if !fits(p.0, p.1) {
            assert(fraction(n, d) == fraction(n, d));
            assert(false);
        }
        Ratio { num: p.0 as i64, den: p.1 as i64 }
    }

    /// The product of a 64-bit integer and a stored part stays well inside
    /// the 128-bit range.
    proof fn lemma_product_bound(a: int, b: int)
        requires
            i64::MIN <= a <= i64::MAX,
            -(i64::MAX as int) <= b <= i64::MAX,
        ensures
            -0x3fff_ffff_ffff_ffff_8000_0000_0000_0000 <= a * b
                <= 0x3fff_ffff_ffff_ffff_8000_0000_0000_0000,
            a * b == b * a,
    {
        assert(-0x3fff_ffff_ffff_ffff_8000_0000_0000_0000 <= a * b
            <= 0x3fff_ffff_ffff_ffff_8000_0000_0000_0000 && a * b == b * a) by (nonlinear_arith)
            requires
                -0x8000_0000_0000_0000 <= a <= 0x7fff_ffff_ffff_ffff,
                -0x7fff_ffff_ffff_ffff <= b <= 0x7fff_ffff_ffff_ffff,
        ;
    }
}

} // verus!
