//! Exact fractions of unsigned integers, kept in lowest terms.
//!
//! The arithmetic itself is done by `num_rational`; this module states what
//! it relies on and proves the number theory that the rest of the library
//! needs about fractions in lowest terms.

use vstd::prelude::*;
use vstd::arithmetic::div_mod::{
    lemma_div_multiples_vanish,
    lemma_fundamental_div_mod,
    lemma_mod_multiples_basic,
};

verus! {

/// Greatest common divisor of two natural numbers.
pub open spec fn gcd(a: nat, b: nat) -> nat
    decreases b,
{
    if b == 0 {
        a
    } else {
        gcd(b, a % b)
    }
}

/// A quotient of two integers as a mathematical value. Different pairs may
/// stand for the same number; `eqv` says when they do.
pub struct Rational {
    pub num: int,
    pub den: int,
}

impl Rational {
    /// Zero, over the denominator one.
    pub open spec fn zero() -> Rational {
        Rational { num: 0, den: 1 }
    }

    /// One, over the denominator one.
    pub open spec fn one() -> Rational {
        Rational { num: 1, den: 1 }
    }

    /// The quotient `num / den`.
    pub open spec fn of(num: int, den: int) -> Rational {
        Rational { num, den }
    }

    /// Both parts are natural numbers and the denominator is not zero.
    pub open spec fn proper(self) -> bool {
        self.num >= 0 && self.den > 0
    }

    /// The two quotients are the same number.
    pub open spec fn eqv(self, other: Rational) -> bool {
        self.num * other.den == other.num * self.den
    }

    /// This quotient is at most the other (for positive denominators).
    pub open spec fn le(self, other: Rational) -> bool {
        self.num * other.den <= other.num * self.den
    }

    /// The sum of the two quotients.
    pub open spec fn plus(self, other: Rational) -> Rational {
        Rational { num: self.num * other.den + other.num * self.den, den: self.den * other.den }
    }

    /// No common factor is left in numerator and denominator.
    pub open spec fn lowest_terms(self) -> bool {
        self.proper() && gcd(self.num as nat, self.den as nat) == 1
    }
}

/// `m` is a common multiple of both denominators over which the two
/// numerators and their sum fit in 64 bits.
pub open spec fn sum_fits_over(a: Rational, b: Rational, m: int) -> bool {
    &&& a.proper()
    &&& b.proper()
    &&& 0 < m <= u64::MAX
    &&& m % a.den == 0
    &&& m % b.den == 0
    &&& a.num * (m / a.den) + b.num * (m / b.den) <= u64::MAX
}

/// An exact non-negative fraction in lowest terms.
#[derive(Debug, Clone, Copy, Hash, PartialEq, Eq, Structural)]
pub struct Fraction {
    numer: u64,
    denom: u64,
}

impl View for Fraction {
    type V = Rational;

    closed spec fn view(&self) -> Rational {
        Rational { num: self.numer as int, den: self.denom as int }
    }
}

impl Fraction {
    /// A fraction is valid when it is in lowest terms with parts that fit in
    /// 64 bits. Every value that executable code can hold is valid.
    #[verifier::type_invariant]
    pub open spec fn wf(self) -> bool {
        &&& self@.lowest_terms()
        &&& self@.num <= u64::MAX
        &&& self@.den <= u64::MAX
    }

    /// The fraction 0/1.
    pub fn zero() -> (f: Fraction)
        ensures
            f@ == Rational::zero(),
    {
        proof {
            lemma_unit_fractions();
        }
        Fraction { numer: 0, denom: 1 }
    }

    /// The fraction 1/1.
    pub fn one() -> (f: Fraction)
        ensures
            f@ == Rational::one(),
    {
        proof {
            lemma_unit_fractions();
        }
        Fraction { numer: 1, denom: 1 }
    }

    /// The fraction `numer / denom` in lowest terms; there is none with a
    /// zero denominator.
    pub fn new(numer: u64, denom: u64) -> (r: Option<Fraction>)
        ensures
            r.is_some() <==> denom != 0,
            r matches Some(f) ==> f.wf() && f@.eqv(Rational::of(numer as int, denom as int)),
    {
        if denom == 0 {
            None
        } else {
            Some(reduce(numer, denom))
        }
    }

    /// The whole number `n` as a fraction.
    pub fn from_integer(n: u64) -> (f: Fraction)
        ensures
            f@ == Rational::of(n as int, 1),
    {
        assert(gcd(n as nat, 1) == 1) by {
            reveal_with_fuel(gcd, 3);
        }
        Fraction { numer: n, denom: 1 }
    }

    /// The numerator of the fraction in lowest terms.
    pub fn numer(&self) -> (n: u64)
        ensures
            n == self@.num,
    {
        self.numer
    }

    /// The denominator of the fraction in lowest terms.
    pub fn denom(&self) -> (d: u64)
        ensures
            d == self@.den,
            d > 0,
    {
        proof {
            use_type_invariant(self);
        }
        self.denom
    }

    /// Whether the fraction is exactly one.
    pub fn is_one(&self) -> (b: bool)
        ensures
            b == (self@ == Rational::one()),
            b == self@.eqv(Rational::one()),
    {
        proof {
            use_type_invariant(self);
            lemma_unit_fractions();
            if self@.eqv(Rational::one()) {
                lemma_lowest_terms_unique(self@, Rational::one());
            }
        }
        self.numer == 1 && self.denom == 1
    }

    /// Whether the fraction is exactly zero.
    pub fn is_zero(&self) -> (b: bool)
        ensures
            b == (self@ == Rational::zero()),
            b == self@.eqv(Rational::zero()),
    {
        proof {
            use_type_invariant(self);
            lemma_unit_fractions();
            if self@.eqv(Rational::zero()) {
                lemma_lowest_terms_unique(self@, Rational::zero());
            }
        }
        self.numer == 0
    }

    /// Whether this fraction is at least `other`.
    pub fn ge(&self, other: &Fraction) -> (b: bool)
        ensures
            b == other@.le(self@),
    {
        proof {
            use_type_invariant(self);
            use_type_invariant(other);
        }
        at_least(*self, *other)
    }

}

/// Calls `num_rational::Ratio::new`, which divides both parts by their
/// greatest common divisor and panics on a zero denominator. The contract
/// claims that the result is in lowest terms and is the same number as
/// `numer / denom`.
#[verifier::external_body]
pub(crate) fn reduce(numer: u64, denom: u64) -> (f: Fraction)
    requires
        denom > 0,
    ensures
        f.wf(),
        f@.eqv(Rational::of(numer as int, denom as int)),
{
    let (n, d) = num_rational::Ratio::<u64>::new(numer, denom).into_raw();
    Fraction { numer: n, denom: d }
}

/// Calls the `+` of `num_rational::Ratio`, which brings both fractions over
/// the least common multiple of their denominators, adds the numerators and
/// reduces. The least common multiple is at most any other common multiple,
/// so under the `requires` no step of it leaves 64 bits. The contract claims
/// that the result is in lowest terms and is the sum of the two numbers.
#[verifier::external_body]
pub(crate) fn sum(a: Fraction, b: Fraction) -> (f: Fraction)
    requires
        a.wf(),
        b.wf(),
        exists|m: int| sum_fits_over(a@, b@, m),
    ensures
        f.wf(),
        f@.eqv(a@.plus(b@)),
{
    let s = num_rational::Ratio::<u64>::new_raw(a.numer, a.denom)
        + num_rational::Ratio::<u64>::new_raw(b.numer, b.denom);
    let (n, d) = s.into_raw();
    Fraction { numer: n, denom: d }
}

/// Calls the `>=` of `num_rational::Ratio`, which orders two fractions with
/// non-zero denominators as the numbers they stand for, without overflow.
/// The contract claims that the result says whether `a` is at least `b`.
#[verifier::external_body]
pub(crate) fn at_least(a: Fraction, b: Fraction) -> (r: bool)
    requires
        a.wf(),
        b.wf(),
    ensures
        r == b@.le(a@),
{
    num_rational::Ratio::<u64>::new_raw(a.numer, a.denom)
        >= num_rational::Ratio::<u64>::new_raw(b.numer, b.denom)
}

/// Zero and one, written over the denominator one, are in lowest terms.
pub proof fn lemma_unit_fractions()
    ensures
        Rational::zero().lowest_terms(),
        Rational::one().lowest_terms(),
{
    reveal_with_fuel(gcd, 3);
}

/// A quotient is at most one exactly when its numerator is at most its
/// denominator, and at least zero exactly when its numerator is.
pub proof fn lemma_unit_bounds(q: Rational)
    ensures
        q.le(Rational::one()) <==> q.num <= q.den,
        Rational::zero().le(q) <==> 0 <= q.num,
        q.eqv(Rational::one()) <==> q.num == q.den,
        q.eqv(Rational::zero()) <==> q.num == 0,
{
    let one = Rational::one();
    let zero = Rational::zero();
    assert(one.num == 1 && one.den == 1);
    assert(zero.num == 0 && zero.den == 1);
    assert(q.num * 1 == q.num);
    assert(1 * q.den == q.den);
    assert(0 * q.den == 0);
}

/// Of two quotients over the same positive denominator the one with the
/// smaller numerator is the smaller.
pub proof fn lemma_le_over_same(x: int, y: int, den: int)
    requires
        den > 0,
    ensures
        Rational::of(x, den).le(Rational::of(y, den)) <==> x <= y,
{
    let p = Rational::of(x, den);
    let q = Rational::of(y, den);
    assert(p.num == x && p.den == den && q.num == y && q.den == den);
    if x <= y {
        assert(x * den <= y * den) by (nonlinear_arith)
            requires
                x <= y,
                den > 0,
        ;
    } else {
        assert(x * den > y * den) by (nonlinear_arith)
            requires
                x > y,
                den > 0,
        ;
    }
}

/// Two valid fractions with the same view are the same fraction.
pub proof fn lemma_fraction_ext(a: Fraction, b: Fraction)
    requires
        a.wf(),
        b.wf(),
        a@ == b@,
    ensures
        a == b,
{
}

/// Bezout's identity: the greatest common divisor of two numbers is an
/// integer combination of them.
pub proof fn lemma_bezout(a: nat, b: nat) -> (c: (int, int))
    ensures
        a * c.0 + b * c.1 == gcd(a, b),
    decreases b,
{
    if b == 0 {
        (1, 0)
    } else {
        let (x, y) = lemma_bezout(b, a % b);
        let q = (a / b) as int;
        lemma_fundamental_div_mod(a as int, b as int);
        assert(a * y + b * (x - q * y) == b * x + (a % b) * y) by (nonlinear_arith)
            requires
                a == b * q + (a % b),
        ;
        (y, x - q * y)
    }
}

/// Where `n` and `d` have no common factor and `d` divides `n * big`, `d`
/// divides `big`, and the quotient carries over.
pub proof fn lemma_coprime_divides(n: nat, d: nat, big: nat, x: nat)
    requires
        d > 0,
        gcd(n, d) == 1,
        n * big == x * d,
    ensures
        big % d == 0,
        n * (big / d) == x,
{
    let (u, v) = lemma_bezout(n, d);
    let k = x * u + big * v;
    assert(big == k * d) by (nonlinear_arith)
        requires
            n * u + d * v == 1,
            n * big == x * d,
            k == x * u + big * v,
    ;
    lemma_mod_multiples_basic(k, d as int);
    assert(d * k == k * d) by (nonlinear_arith);
    lemma_div_multiples_vanish(k, d as int);
    assert(n * k == x) by (nonlinear_arith)
        requires
            n * (k * d) == x * d,
            d > 0,
    ;
}

/// A number has exactly one fraction in lowest terms.
pub proof fn lemma_lowest_terms_unique(a: Rational, b: Rational)
    requires
        a.lowest_terms(),
        b.lowest_terms(),
        a.eqv(b),
    ensures
        a == b,
{
    lemma_coprime_divides(a.num as nat, a.den as nat, b.den as nat, b.num as nat);
    lemma_coprime_divides(b.num as nat, b.den as nat, a.den as nat, a.num as nat);
    let p = b.den / a.den;
    let q = a.den / b.den;
    lemma_fundamental_div_mod(b.den, a.den);
    lemma_fundamental_div_mod(a.den, b.den);
    assert(a.den == b.den) by (nonlinear_arith)
        requires
            b.den == a.den * p,
            a.den == b.den * q,
            a.den > 0,
            b.den > 0,
    ;
    assert(a.num == b.num) by (nonlinear_arith)
        requires
            a.num * b.den == b.num * a.den,
            a.den == b.den,
            a.den > 0,
    ;
}

/// A fraction in lowest terms that equals `x / big` has a denominator that
/// divides `big`, and over `big` its numerator is `x`.
pub proof fn lemma_over_common_denominator(f: Rational, x: int, big: int)
    requires
        f.lowest_terms(),
        x >= 0,
        big > 0,
        f.eqv(Rational::of(x, big)),
    ensures
        big % f.den == 0,
        f.num * (big / f.den) == x,
{
    lemma_coprime_divides(f.num as nat, f.den as nat, big as nat, x as nat);
}

/// Adding `x / big` and `y / big` gives `(x + y) / big`, whatever fractions
/// stand for the two.
pub proof fn lemma_plus_over_common_denominator(
    a: Rational,
    b: Rational,
    s: Rational,
    x: int,
    y: int,
    big: int,
)
    requires
        a.den > 0,
        b.den > 0,
        big > 0,
        a.eqv(Rational::of(x, big)),
        b.eqv(Rational::of(y, big)),
        s.eqv(a.plus(b)),
    ensures
        s.eqv(Rational::of(x + y, big)),
{
    let ad = a.den;
    let bd = b.den;
    let p = ad * bd;
    let ax = a.num * big;
    let by = b.num * big;
    assert(p > 0) by (nonlinear_arith)
        requires
            p == ad * bd,
            ad > 0,
            bd > 0,
    ;
    assert((a.num * bd + b.num * ad) * big == ax * bd + by * ad) by (nonlinear_arith)
        requires
            ax == a.num * big,
            by == b.num * big,
    ;
    assert(ax * bd + by * ad == (x + y) * p) by (nonlinear_arith)
        requires
            ax == x * ad,
            by == y * bd,
            p == ad * bd,
    ;
    let t = a.num * bd + b.num * ad;
    assert((s.num * big) * p == ((x + y) * s.den) * p) by (nonlinear_arith)
        requires
            s.num * p == t * s.den,
            t * big == (x + y) * p,
    ;
    assert(s.num * big == (x + y) * s.den) by (nonlinear_arith)
        requires
            (s.num * big) * p == ((x + y) * s.den) * p,
            p > 0,
    ;
}

/// Which of two numbers is the larger does not depend on the quotients
/// that stand for them.
pub proof fn lemma_le_respects_eqv(a: Rational, b: Rational, c: Rational, d: Rational)
    requires
        a.den > 0,
        b.den > 0,
        c.den > 0,
        d.den > 0,
        a.eqv(c),
        b.eqv(d),
    ensures
        a.le(b) <==> c.le(d),
{
    let left = a.num * b.den;
    let right = b.num * a.den;
    let scale = c.den * d.den;
    let left2 = c.num * d.den;
    let right2 = d.num * c.den;
    let back = a.den * b.den;
    assert(scale > 0 && back > 0) by (nonlinear_arith)
        requires
            scale == c.den * d.den,
            back == a.den * b.den,
            a.den > 0,
            b.den > 0,
            c.den > 0,
            d.den > 0,
    ;
    assert(left * scale == left2 * back) by (nonlinear_arith)
        requires
            left == a.num * b.den,
            scale == c.den * d.den,
            left2 == c.num * d.den,
            back == a.den * b.den,
            a.num * c.den == c.num * a.den,
    ;
    assert(right * scale == right2 * back) by (nonlinear_arith)
        requires
            right == b.num * a.den,
            scale == c.den * d.den,
            right2 == d.num * c.den,
            back == a.den * b.den,
            b.num * d.den == d.num * b.den,
    ;
    if left <= right {
        assert(left2 <= right2) by (nonlinear_arith)
            requires
                left <= right,
                left * scale == left2 * back,
                right * scale == right2 * back,
                scale > 0,
                back > 0,
        ;
    }
    if left2 <= right2 {
        assert(left <= right) by (nonlinear_arith)
            requires
                left2 <= right2,
                left * scale == left2 * back,
                right * scale == right2 * back,
                scale > 0,
                back > 0,
        ;
    }
}

} // verus!
