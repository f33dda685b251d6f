//! Exact rational scalars, with their arithmetic delegated to `num::Rational64`.
use num::rational::Ratio;
use num::traits::{CheckedAdd, CheckedDiv, CheckedMul, CheckedSub, FromPrimitive};
use vstd::prelude::*;

verus! {

/// A rational number `numer / denom`, the coefficient and parameter type of
/// the polynomials of this crate.
///
/// The constructors and operations of this crate return values in lowest
/// terms with a positive denominator (as `num` does), so for them `==`
/// compares the numbers denoted.
#[derive(Clone, Copy, Debug, PartialEq, Eq, Structural)]
pub struct Rational {
    pub numer: i64,
    pub denom: i64,
}

impl View for Rational {
    type V = real;

    open spec fn view(&self) -> real {
        self.numer as real / self.denom as real
    }
}

impl Rational {
    /// A usable rational: its denominator is positive.
    pub open spec fn wf(&self) -> bool {
        self.denom > 0
    }

    /// The rational `numer / denom`, reduced to lowest terms.
    pub fn new(numer: i64, denom: i64) -> (r: Rational)
        requires
            denom != 0,
            denom > 0 || (numer != i64::MIN && denom != i64::MIN),
        ensures
            r.wf(),
            r@ == numer as real / denom as real,
    {
        ratio_new(numer, denom)
    }

    /// The integer `n` as a rational.
    pub fn from_integer(n: i64) -> (r: Rational)
        ensures
            r.wf(),
            r@ == n as real,
            r == Rational::of_int(n as int),
    {
        let r = Rational { numer: n, denom: 1 };
        proof {
            lemma_over_one(n as int);
        }
        r
    }

    /// Zero.
    pub fn zero() -> (r: Rational)
        ensures
            r.wf(),
            r@ == 0 as real,
            r == Rational::of_int(0),
    {
        proof {
            lemma_over_one(0);
        }
        Rational { numer: 0, denom: 1 }
    }

    /// One.
    pub fn one() -> (r: Rational)
        ensures
            r.wf(),
            r@ == 1 as real,
    {
        proof {
            lemma_over_one(1);
        }
        Rational { numer: 1, denom: 1 }
    }

    /// The quotient `self / rhs`, or `None` where `rhs` is zero or an
    /// intermediate product does not fit in `i64`.
    pub fn checked_quot(&self, rhs: &Rational) -> (r: Option<Rational>)
        requires
            self.wf(),
            rhs.wf(),
        ensures
            rhs.numer == 0 ==> r is None,
            r is Some ==> r->0.wf() && r->0@ == self@ / rhs@,
            r is Some ==> r->0 == self.quot_of(*rhs),
            quotient_fits(*self, *rhs) ==> r is Some,
    {
        if rhs.numer == 0 {
            None
        } else if self.numer == 0 {
            proof {
                lemma_zero_over(self.denom as int);
                lemma_nonzero(rhs.numer as int, rhs.denom as int);
                lemma_zero_over_real(rhs@);
                lemma_over_one(0);
            }
            Some(Rational::zero())
        } else {
            let r = ratio_div(self, rhs);
            proof {
                if r is Some {
                    let x = r->0;
                    assert(x == Rational::of_pair(x.pair()));
                }
            }
            r
        }
    }
}

proof fn lemma_over_one(n: int)
    ensures
        n as real / 1int as real == n as real,
{
    assert(n as real / 1int as real == n as real) by (nonlinear_arith);
}

proof fn lemma_zero_over(d: int)
    requires
        d != 0,
    ensures
        0int as real / d as real == 0 as real,
{
    assert(0int as real / d as real == 0 as real) by (nonlinear_arith)
        requires
            d != 0,
    ;
}

proof fn lemma_zero_over_real(d: real)
    requires
        d != 0 as real,
    ensures
        (0 as real) / d == 0 as real,
{
    assert((0 as real) / d == 0 as real) by (nonlinear_arith)
        requires
            d != 0 as real,
    ;
}

proof fn lemma_nonzero(n: int, d: int)
    requires
        n != 0,
        d > 0,
    ensures
        n as real / d as real != 0 as real,
{
    assert(n as real / d as real != 0 as real) by (nonlinear_arith)
        requires
            n != 0,
            d > 0,
    ;
}

/// Numerator and denominator that `CheckedAdd for Ratio<i64>` gives for two
/// (numerator, denominator) pairs.
pub uninterp spec fn ratio_sum(a: (i64, i64), b: (i64, i64)) -> (i64, i64);

/// Numerator and denominator that `CheckedSub for Ratio<i64>` gives.
pub uninterp spec fn ratio_difference(a: (i64, i64), b: (i64, i64)) -> (i64, i64);

/// Numerator and denominator that `CheckedMul for Ratio<i64>` gives.
pub uninterp spec fn ratio_product(a: (i64, i64), b: (i64, i64)) -> (i64, i64);

/// Numerator and denominator that `CheckedDiv for Ratio<i64>` gives.
pub uninterp spec fn ratio_quotient(a: (i64, i64), b: (i64, i64)) -> (i64, i64);

/// The magnitude of `x`.
pub open spec fn magnitude(x: i64) -> int {
    if x < 0 {
        -(x as int)
    } else {
        x as int
    }
}

/// Bounds under which the cross products, the common denominator and the sum
/// (or difference) of `a` and `b` all fit in `i64`.
pub open spec fn sum_fits(a: Rational, b: Rational) -> bool {
    &&& magnitude(a.numer) * b.denom + magnitude(b.numer) * a.denom <= i64::MAX
    &&& a.denom * b.denom <= i64::MAX
}

/// Bounds under which the products of numerators and of denominators fit.
pub open spec fn product_fits(a: Rational, b: Rational) -> bool {
    &&& magnitude(a.numer) * magnitude(b.numer) <= i64::MAX
    &&& a.denom * b.denom <= i64::MAX
}

/// `b` is not zero and the cross products of `a / b` fit.
pub open spec fn quotient_fits(a: Rational, b: Rational) -> bool {
    &&& b.numer != 0
    &&& magnitude(a.numer) * b.denom <= i64::MAX
    &&& a.denom * magnitude(b.numer) <= i64::MAX
}

impl Rational {
    /// The pair (numerator, denominator).
    pub open spec fn pair(self) -> (i64, i64) {
        (self.numer, self.denom)
    }

    /// The rational with the given pair.
    pub open spec fn of_pair(p: (i64, i64)) -> Rational {
        Rational { numer: p.0, denom: p.1 }
    }

    /// The integer `n` as num represents it.
    pub open spec fn of_int(n: int) -> Rational {
        Rational { numer: n as i64, denom: 1 }
    }

    /// What `checked_quot` gives where it succeeds.
    pub open spec fn quot_of(self, rhs: Rational) -> Rational {
        if self.numer == 0 {
            Rational::of_int(0)
        } else {
            Rational::of_pair(ratio_quotient(self.pair(), rhs.pair()))
        }
    }
}

/// Relies on `num::rational::Ratio::new`: the value `n / d` in lowest terms
/// with a positive denominator. It panics on a zero denominator, and on a
/// negative one where negating `i64::MIN` would be needed.
#[verifier::external_body]
fn ratio_new(n: i64, d: i64) -> (r: Rational)
    requires
        d != 0,
        d > 0 || (n != i64::MIN && d != i64::MIN),
    ensures
        r.wf(),
        r@ == n as real / d as real,
{
    let (numer, denom) = Ratio::new(n, d).into_raw();
    Rational { numer, denom }
}

/// Relies on `CheckedAdd for Ratio<i64>`: the exact sum, or `None` where an
/// intermediate product or the sum overflows. With positive denominators
/// the common denominator is at most `a.denom * b.denom` and the scaled
/// numerators at most `|a.numer| * b.denom` and `|b.numer| * a.denom`, so
/// under `sum_fits` nothing overflows.
#[verifier::external_body]
pub(crate) fn ratio_add(a: &Rational, b: &Rational) -> (r: Option<Rational>)
    requires
        a.wf(),
        b.wf(),
    ensures
        r is Some ==> r->0.wf() && r->0@ == a@ + b@,
        r is Some ==> r->0.pair() == ratio_sum(a.pair(), b.pair()),
        sum_fits(*a, *b) ==> r is Some,
{
    let x = Ratio::new_raw(a.numer, a.denom);
    let y = Ratio::new_raw(b.numer, b.denom);
    x.checked_add(&y).map(|s| Rational::from_pair(s.into_raw()))
}

/// Relies on `CheckedSub for Ratio<i64>`: the exact difference, or `None`
/// where an intermediate product or the difference overflows; the same
/// bounds as for the sum hold.
#[verifier::external_body]
pub(crate) fn ratio_sub(a: &Rational, b: &Rational) -> (r: Option<Rational>)
    requires
        a.wf(),
        b.wf(),
    ensures
        r is Some ==> r->0.wf() && r->0@ == a@ - b@,
        r is Some ==> r->0.pair() == ratio_difference(a.pair(), b.pair()),
        sum_fits(*a, *b) ==> r is Some,
{
    let x = Ratio::new_raw(a.numer, a.denom);
    let y = Ratio::new_raw(b.numer, b.denom);
    x.checked_sub(&y).map(|s| Rational::from_pair(s.into_raw()))
}

/// Relies on `CheckedMul for Ratio<i64>`: the exact product, or `None` where
/// a product of the cancelled parts overflows; the cancelled parts are at
/// most the products of numerators and of denominators.
#[verifier::external_body]
pub(crate) fn ratio_mul(a: &Rational, b: &Rational) -> (r: Option<Rational>)
    requires
        a.wf(),
        b.wf(),
    ensures
        r is Some ==> r->0.wf() && r->0@ == a@ * b@,
        r is Some ==> r->0.pair() == ratio_product(a.pair(), b.pair()),
        product_fits(*a, *b) ==> r is Some,
{
    let x = Ratio::new_raw(a.numer, a.denom);
    let y = Ratio::new_raw(b.numer, b.denom);
    x.checked_mul(&y).map(|s| Rational::from_pair(s.into_raw()))
}

/// Relies on `CheckedDiv for Ratio<i64>`: the exact quotient, or `None` where
/// the divisor is zero or a product overflows; the cross products are at most
/// `|a.numer| * b.denom` and `a.denom * |b.numer|`. It panics (through
/// `gcd(0, i64::MIN)`) on a zero dividend over a divisor whose numerator is
/// `i64::MIN`.
#[verifier::external_body]
fn ratio_div(a: &Rational, b: &Rational) -> (r: Option<Rational>)
    requires
        a.wf(),
        b.wf(),
        a.numer != 0 || b.numer != i64::MIN,
    ensures
        r is Some ==> b@ != 0 as real && r->0.wf() && r->0@ == a@ / b@,
        r is Some ==> r->0.pair() == ratio_quotient(a.pair(), b.pair()),
        quotient_fits(*a, *b) ==> r is Some,
{
    let x = Ratio::new_raw(a.numer, a.denom);
    let y = Ratio::new_raw(b.numer, b.denom);
    x.checked_div(&y).map(|s| Rational::from_pair(s.into_raw()))
}

/// Relies on `FromPrimitive::from_usize for Ratio<i64>`: the integer `n`
/// (as `Ratio::from_integer`, over 1), which exists exactly where `n` fits
/// in `i64`.
#[verifier::external_body]
pub(crate) fn ratio_from_usize(n: usize) -> (r: Option<Rational>)
    ensures
        r is Some <==> n <= i64::MAX,
        r is Some ==> r->0.wf() && r->0@ == n as real,
        r is Some ==> r->0 == Rational::of_int(n as int),
{
    <Ratio<i64> as FromPrimitive>::from_usize(n).map(|s| Rational::from_pair(s.into_raw()))
}

impl Rational {
    /// The rational with the given numerator and denominator, unchanged.
    pub(crate) fn from_pair(p: (i64, i64)) -> (r: Rational)
        ensures
            r.numer == p.0,
            r.denom == p.1,
    {
        Rational { numer: p.0, denom: p.1 }
    }
}

} // verus!
