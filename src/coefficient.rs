//! Coefficient types: what a polynomial's coefficients must offer, with a
//! model as a complex number over the reals (a pair of real and imaginary
//! parts), and its two instances, `Rational` and the rational `Complex`.
use crate::rational::{
    product_fits, ratio_add, ratio_difference, ratio_mul, ratio_product, ratio_sub, ratio_sum,
    sum_fits, Rational,
};
use vstd::prelude::*;

verus! {

/// `x + y` of complex numbers given as (real part, imaginary part).
pub open spec fn cx_add(x: (real, real), y: (real, real)) -> (real, real) {
    (x.0 + y.0, x.1 + y.1)
}

/// `x - y`.
pub open spec fn cx_sub(x: (real, real), y: (real, real)) -> (real, real) {
    (x.0 - y.0, x.1 - y.1)
}

/// `x * y`.
pub open spec fn cx_mul(x: (real, real), y: (real, real)) -> (real, real) {
    (x.0 * y.0 - x.1 * y.1, x.0 * y.1 + x.1 * y.0)
}

/// `x * s` for a real scalar `s`.
pub open spec fn cx_scale(x: (real, real), s: real) -> (real, real) {
    (x.0 * s, x.1 * s)
}

/// Zero.
pub open spec fn cx_zero() -> (real, real) {
    (0 as real, 0 as real)
}

/// A coefficient of a polynomial: closed under addition, subtraction,
/// multiplication and scaling by a rational. Each operation is exact, gives
/// the representation `..._of`, and succeeds wherever `..._fits` holds; it
/// gives `None` only where the representation would overflow.
pub trait Coefficient: Sized + Copy {
    /// The value is usable.
    spec fn ok(&self) -> bool;

    /// The complex number that the value stands for.
    spec fn val(&self) -> (real, real);

    /// The representation of zero.
    spec fn zero_of() -> Self;

    /// The representation of `self + o`, and when it cannot overflow.
    spec fn plus_of(self, o: Self) -> Self;

    spec fn plus_fits(self, o: Self) -> bool;

    /// The representation of `self - o`, and when it cannot overflow.
    spec fn minus_of(self, o: Self) -> Self;

    spec fn minus_fits(self, o: Self) -> bool;

    /// The representation of `self * o`, and when it cannot overflow.
    spec fn times_of(self, o: Self) -> Self;

    spec fn times_fits(self, o: Self) -> bool;

    /// The representation of `self * s`, and when it cannot overflow.
    spec fn scaled_of(self, s: Rational) -> Self;

    spec fn scale_fits(self, s: Rational) -> bool;

    /// Zero.
    fn zero() -> (r: Self)
        ensures
            r.ok(),
            r.val() == cx_zero(),
            r == Self::zero_of(),
    ;

    /// `self + o`.
    fn plus(&self, o: &Self) -> (r: Option<Self>)
        requires
            self.ok(),
            o.ok(),
        ensures
            r is Some ==> r->0.ok() && r->0.val() == cx_add(self.val(), o.val()),
            r is Some ==> r->0 == self.plus_of(*o),
            self.plus_fits(*o) ==> r is Some,
    ;

    /// `self - o`.
    fn minus(&self, o: &Self) -> (r: Option<Self>)
        requires
            self.ok(),
            o.ok(),
        ensures
            r is Some ==> r->0.ok() && r->0.val() == cx_sub(self.val(), o.val()),
            r is Some ==> r->0 == self.minus_of(*o),
            self.minus_fits(*o) ==> r is Some,
    ;

    /// `self * o`.
    fn times(&self, o: &Self) -> (r: Option<Self>)
        requires
            self.ok(),
            o.ok(),
        ensures
            r is Some ==> r->0.ok() && r->0.val() == cx_mul(self.val(), o.val()),
            r is Some ==> r->0 == self.times_of(*o),
            self.times_fits(*o) ==> r is Some,
    ;

    /// `self * s` for a rational scalar `s`.
    fn scaled_by(&self, s: &Rational) -> (r: Option<Self>)
        requires
            self.ok(),
            s.wf(),
        ensures
            r is Some ==> r->0.ok() && r->0.val() == cx_scale(self.val(), s@),
            r is Some ==> r->0 == self.scaled_of(*s),
            self.scale_fits(*s) ==> r is Some,
    ;
}

impl Coefficient for Rational {
    open spec fn ok(&self) -> bool {
        self.wf()
    }

    open spec fn val(&self) -> (real, real) {
        (self@, 0 as real)
    }

    open spec fn zero_of() -> Rational {
        Rational::of_int(0)
    }

    open spec fn plus_of(self, o: Rational) -> Rational {
        Rational::of_pair(ratio_sum(self.pair(), o.pair()))
    }

    open spec fn plus_fits(self, o: Rational) -> bool {
        sum_fits(self, o)
    }

    open spec fn minus_of(self, o: Rational) -> Rational {
        Rational::of_pair(ratio_difference(self.pair(), o.pair()))
    }

    open spec fn minus_fits(self, o: Rational) -> bool {
        sum_fits(self, o)
    }

    open spec fn times_of(self, o: Rational) -> Rational {
        Rational::of_pair(ratio_product(self.pair(), o.pair()))
    }

    open spec fn times_fits(self, o: Rational) -> bool {
        product_fits(self, o)
    }

    open spec fn scaled_of(self, s: Rational) -> Rational {
        Rational::of_pair(ratio_product(self.pair(), s.pair()))
    }

    open spec fn scale_fits(self, s: Rational) -> bool {
        product_fits(self, s)
    }

    fn zero() -> (r: Rational) {
        Rational::zero()
    }

    fn plus(&self, o: &Rational) -> (r: Option<Rational>) {
        let r = ratio_add(self, o);
        proof {
            if r is Some {
                assert(r->0 == Rational::of_pair(r->0.pair()));
            }
        }
        r
    }

    fn minus(&self, o: &Rational) -> (r: Option<Rational>) {
        let r = ratio_sub(self, o);
        proof {
            if r is Some {
                assert(r->0 == Rational::of_pair(r->0.pair()));
            }
        }
        r
    }

    fn times(&self, o: &Rational) -> (r: Option<Rational>) {
        let r = ratio_mul(self, o);
        proof {
            let (a, b) = (self@, o@);
            assert(a * 0 as real == 0 as real && 0 as real * b == 0 as real) by (nonlinear_arith);
            if r is Some {
                assert(r->0 == Rational::of_pair(r->0.pair()));
            }
        }
        r
    }

    fn scaled_by(&self, s: &Rational) -> (r: Option<Rational>) {
        let r = ratio_mul(self, s);
        proof {
            let b = s@;
            assert(0 as real * b == 0 as real) by (nonlinear_arith);
            if r is Some {
                assert(r->0 == Rational::of_pair(r->0.pair()));
            }
        }
        r
    }
}

/// A complex number with rational real and imaginary parts.
#[derive(Clone, Copy, Debug, PartialEq, Eq, Structural)]
pub struct Complex {
    pub re: Rational,
    pub im: Rational,
}

impl Complex {
    /// The complex number `re + im i`.
    pub fn new(re: Rational, im: Rational) -> (r: Complex)
        ensures
            r.re == re,
            r.im == im,
    {
        Complex { re, im }
    }
}

impl Coefficient for Complex {
    open spec fn ok(&self) -> bool {
        self.re.wf() && self.im.wf()
    }

    open spec fn val(&self) -> (real, real) {
        (self.re@, self.im@)
    }

    open spec fn zero_of() -> Complex {
        Complex { re: Rational::of_int(0), im: Rational::of_int(0) }
    }

    open spec fn plus_of(self, o: Complex) -> Complex {
        Complex { re: self.re.plus_of(o.re), im: self.im.plus_of(o.im) }
    }

    open spec fn plus_fits(self, o: Complex) -> bool {
        self.re.plus_fits(o.re) && self.im.plus_fits(o.im)
    }

    open spec fn minus_of(self, o: Complex) -> Complex {
        Complex { re: self.re.minus_of(o.re), im: self.im.minus_of(o.im) }
    }

    open spec fn minus_fits(self, o: Complex) -> bool {
        self.re.minus_fits(o.re) && self.im.minus_fits(o.im)
    }

    open spec fn times_of(self, o: Complex) -> Complex {
        let ac = self.re.times_of(o.re);
        let bd = self.im.times_of(o.im);
        let ad = self.re.times_of(o.im);
        let bc = self.im.times_of(o.re);
        Complex { re: ac.minus_of(bd), im: ad.plus_of(bc) }
    }

    open spec fn times_fits(self, o: Complex) -> bool {
        let ac = self.re.times_of(o.re);
        let bd = self.im.times_of(o.im);
        let ad = self.re.times_of(o.im);
        let bc = self.im.times_of(o.re);
        &&& self.re.times_fits(o.re)
        &&& self.im.times_fits(o.im)
        &&& self.re.times_fits(o.im)
        &&& self.im.times_fits(o.re)
        &&& ac.minus_fits(bd)
        &&& ad.plus_fits(bc)
    }

    open spec fn scaled_of(self, s: Rational) -> Complex {
        Complex { re: self.re.scaled_of(s), im: self.im.scaled_of(s) }
    }

    open spec fn scale_fits(self, s: Rational) -> bool {
        self.re.scale_fits(s) && self.im.scale_fits(s)
    }

    fn zero() -> (r: Complex) {
        Complex { re: Rational::zero(), im: Rational::zero() }
    }

    fn plus(&self, o: &Complex) -> (r: Option<Complex>) {
        let re = ratio_add(&self.re, &o.re)?;
        let im = ratio_add(&self.im, &o.im)?;
        Some(Complex { re, im })
    }

    fn minus(&self, o: &Complex) -> (r: Option<Complex>) {
        let re = ratio_sub(&self.re, &o.re)?;
        let im = ratio_sub(&self.im, &o.im)?;
        Some(Complex { re, im })
    }

    fn times(&self, o: &Complex) -> (r: Option<Complex>) {
        let ac = ratio_mul(&self.re, &o.re)?;
        let bd = ratio_mul(&self.im, &o.im)?;
        let ad = ratio_mul(&self.re, &o.im)?;
        let bc = ratio_mul(&self.im, &o.re)?;
        let re = ratio_sub(&ac, &bd)?;
        let im = ratio_add(&ad, &bc)?;
        Some(Complex { re, im })
    }

    fn scaled_by(&self, s: &Rational) -> (r: Option<Complex>) {
        let re = ratio_mul(&self.re, s)?;
        let im = ratio_mul(&self.im, s)?;
        Some(Complex { re, im })
    }
}

} // verus!
