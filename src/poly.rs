//! The polynomial type, its model, evaluation and calculus.
use crate::coefficient::{cx_add, cx_scale, cx_sub, cx_zero, Coefficient};
use crate::rational::{quotient_fits, ratio_from_usize, Rational};
use vstd::prelude::*;

verus! {

/// The values that a sequence of coefficients stands for.
pub open spec fn values<T: Coefficient>(s: Seq<T>) -> Seq<(real, real)> {
    s.map_values(|c: T| c.val())
}

/// Every coefficient of `s` is usable.
pub open spec fn all_ok<T: Coefficient>(s: Seq<T>) -> bool {
    forall|i: int| 0 <= i < s.len() ==> #[trigger] s[i].ok()
}

/// One pass of De Casteljau's algorithm: each pair of neighbours blended
/// into `q[i] * a + q[i + 1] * b`, one value fewer than `q`.
pub open spec fn blend_step(q: Seq<(real, real)>, a: real, b: real) -> Seq<(real, real)> {
    Seq::new((q.len() - 1) as nat, |i: int| cx_add(cx_scale(q[i], a), cx_scale(q[i + 1], b)))
}

/// The value that repeated blending leaves once one value is left (zero for
/// no values at all).
pub open spec fn casteljau(q: Seq<(real, real)>, a: real, b: real) -> (real, real)
    decreases q.len(),
{
    if q.len() == 0 {
        cx_zero()
    } else if q.len() == 1 {
        q[0]
    } else {
        casteljau(blend_step(q, a, b), a, b)
    }
}

/// The sum of a sequence.
pub open spec fn seq_sum(s: Seq<(real, real)>) -> (real, real)
    decreases s.len(),
{
    if s.len() == 0 {
        cx_zero()
    } else {
        cx_add(seq_sum(s.drop_last()), s.last())
    }
}

/// Coefficients of the derivative over `(lo, hi)`:
/// `(v[i + 1] - v[i]) * ((n - 1) / (hi - lo))`.
pub open spec fn diff_coefs(v: Seq<(real, real)>, lo: real, hi: real) -> Seq<(real, real)>
    recommends
        v.len() >= 1,
{
    let f = (v.len() - 1) as real / (hi - lo);
    Seq::new((v.len() - 1) as nat, |i: int| cx_scale(cx_sub(v[i + 1], v[i]), f))
}

/// Coefficients of the integral over `(lo, hi)` that starts at `c`:
/// `c + (v[0] + ... + v[k - 1]) * ((hi - lo) / n)`.
pub open spec fn integ_coefs(v: Seq<(real, real)>, c: (real, real), lo: real, hi: real) -> Seq<
    (real, real),
> {
    let f = (hi - lo) / v.len() as real;
    Seq::new(v.len() + 1, |k: int| cx_add(c, cx_scale(seq_sum(v.take(k)), f)))
}

/// The representations that one pass of De Casteljau's algorithm computes.
pub open spec fn blend_rep<T: Coefficient>(q: Seq<T>, a: Rational, b: Rational) -> Seq<T> {
    Seq::new((q.len() - 1) as nat, |i: int| blend_one(q, a, b, i))
}

/// `q[i] * a + q[i + 1] * b` as the coefficient operations compute it.
pub open spec fn blend_one<T: Coefficient>(q: Seq<T>, a: Rational, b: Rational, i: int) -> T {
    q[i].scaled_of(a).plus_of(q[i + 1].scaled_of(b))
}

/// The three operations of `blend_one` cannot overflow.
pub open spec fn blend_one_fits<T: Coefficient>(q: Seq<T>, a: Rational, b: Rational, i: int) -> bool {
    &&& q[i].scale_fits(a)
    &&& q[i + 1].scale_fits(b)
    &&& q[i].scaled_of(a).plus_fits(q[i + 1].scaled_of(b))
}

/// No operation of any pass of De Casteljau's algorithm overflows.
pub open spec fn casteljau_fits<T: Coefficient>(q: Seq<T>, a: Rational, b: Rational) -> bool
    decreases q.len(),
{
    if q.len() <= 1 {
        true
    } else {
        &&& forall|i: int| 0 <= i < q.len() - 1 ==> #[trigger] blend_one_fits(q, a, b, i)
        &&& casteljau_fits(blend_rep(q, a, b), a, b)
    }
}

/// `(v[i + 1] - v[i]) * f` as the coefficient operations compute it, cannot
/// overflow.
pub open spec fn diff_one_fits<T: Coefficient>(v: Seq<T>, f: Rational, i: int) -> bool {
    v[i + 1].minus_fits(v[i]) && v[i + 1].minus_of(v[i]).scale_fits(f)
}

/// The running sum `c + v[0] * f + ... + v[k - 1] * f` as `integ` computes it.
pub open spec fn integ_acc<T: Coefficient>(v: Seq<T>, c: T, f: Rational, k: int) -> T
    decreases k,
{
    if k <= 0 || k > v.len() {
        c
    } else {
        integ_acc(v, c, f, k - 1).plus_of(v[k - 1].scaled_of(f))
    }
}

/// Step `k` of the running sum cannot overflow.
pub open spec fn integ_one_fits<T: Coefficient>(v: Seq<T>, c: T, f: Rational, k: int) -> bool {
    v[k].scale_fits(f) && integ_acc(v, c, f, k).plus_fits(v[k].scaled_of(f))
}

/// A copy of `v`, element by element.
fn copy_all<T: Copy>(v: &Vec<T>) -> (r: Vec<T>)
    ensures
        r@ == v@,
{
    let mut r: Vec<T> = Vec::new();
    let mut i: usize = 0;
    while i < v.len()
        invariant
            0 <= i <= v@.len(),
            r@ == v@.take(i as int),
        decreases v@.len() - i,
    {
        r.push(v[i]);
        i += 1;
        assert(r@ =~= v@.take(i as int));
    }
    assert(r@ =~= v@);
    r
}

/// A polynomial in the Bernstein basis of dimension `coef.len()` (degree
/// `coef.len() - 1`) over the parameter interval `segm = (u0, u1)`.
///
/// The derivative of a constant has no coefficients: it is the zero
/// polynomial, which can be read but not evaluated, differentiated,
/// integrated or multiplied.
#[derive(Debug)]
pub struct Bernstein<T> {
    pub coef: Vec<T>,
    pub segm: (Rational, Rational),
}

impl<T: Coefficient> Bernstein<T> {
    /// All coefficients usable, and a non-degenerate interval `u0 != u1`.
    pub open spec fn wf(&self) -> bool {
        &&& all_ok(self.coef@)
        &&& self.segm.0.wf()
        &&& self.segm.1.wf()
        &&& self.segm.0@ != self.segm.1@
    }

    /// The values of the coefficients.
    pub open spec fn coefs(&self) -> Seq<(real, real)> {
        values(self.coef@)
    }

    /// The start `u0` of the interval.
    pub open spec fn lo(&self) -> real {
        self.segm.0@
    }

    /// The end `u1` of the interval.
    pub open spec fn hi(&self) -> real {
        self.segm.1@
    }

    /// The value of the polynomial at `u`.
    pub open spec fn value_at(&self, u: real) -> (real, real) {
        let w = self.hi() - self.lo();
        casteljau(self.coefs(), (self.hi() - u) / w, (u - self.lo()) / w)
    }

    /// The weight of the first coefficient in a blend at `u`: `(u1 - u) / (u1 - u0)`.
    pub open spec fn left_weight(&self, u: Rational) -> Rational {
        self.segm.1.minus_of(u).quot_of(self.segm.1.minus_of(self.segm.0))
    }

    /// The weight of the second: `(u - u0) / (u1 - u0)`.
    pub open spec fn right_weight(&self, u: Rational) -> Rational {
        u.minus_of(self.segm.0).quot_of(self.segm.1.minus_of(self.segm.0))
    }

    /// No operation of `eval` at `u` overflows.
    pub open spec fn eval_fits(&self, u: Rational) -> bool {
        let (u0, u1) = self.segm;
        let w = u1.minus_of(u0);
        self.coef@.len() == 1 || {
            &&& u1.minus_fits(u0)
            &&& u1.minus_fits(u)
            &&& u.minus_fits(u0)
            &&& quotient_fits(u1.minus_of(u), w)
            &&& quotient_fits(u.minus_of(u0), w)
            &&& casteljau_fits(self.coef@, self.left_weight(u), self.right_weight(u))
        }
    }

    /// The scale `(n - 1) / (u1 - u0)` of the derivative.
    pub open spec fn diff_factor(&self) -> Rational {
        Rational::of_int(self.coef@.len() - 1).quot_of(self.segm.1.minus_of(self.segm.0))
    }

    /// No operation of `diff` overflows.
    pub open spec fn diff_fits(&self) -> bool {
        let n = self.coef@.len();
        let w = self.segm.1.minus_of(self.segm.0);
        n == 1 || {
            &&& self.segm.1.minus_fits(self.segm.0)
            &&& n - 1 <= i64::MAX
            &&& quotient_fits(Rational::of_int(n - 1), w)
            &&& forall|i: int|
                0 <= i < n - 1 ==> #[trigger] diff_one_fits(self.coef@, self.diff_factor(), i)
        }
    }

    /// The scale `(u1 - u0) / n` of the integral.
    pub open spec fn integ_factor(&self) -> Rational {
        self.segm.1.minus_of(self.segm.0).quot_of(Rational::of_int(self.coef@.len() as int))
    }

    /// No operation of `integ` with constant `c` overflows.
    pub open spec fn integ_fits(&self, c: T) -> bool {
        let n = self.coef@.len();
        let w = self.segm.1.minus_of(self.segm.0);
        &&& self.segm.1.minus_fits(self.segm.0)
        &&& n <= i64::MAX
        &&& quotient_fits(w, Rational::of_int(n as int))
        &&& forall|k: int|
            0 <= k < n ==> #[trigger] integ_one_fits(self.coef@, c, self.integ_factor(), k)
    }

    /// The polynomial with the given coefficients over the interval (0, 1).
    pub fn new(coef: Vec<T>) -> (r: Bernstein<T>)
        ensures
            r.coef@ == coef@,
            r.segm.0.wf(),
            r.segm.1.wf(),
            r.lo() == 0 as real,
            r.hi() == 1 as real,
            all_ok(coef@) ==> r.wf(),
    {
        let u0 = Rational::zero();
        let u1 = Rational::one();
        Bernstein { coef, segm: (u0, u1) }
    }

    /// The coefficients.
    pub fn coef(&self) -> (r: &Vec<T>)
        ensures
            r@ == self.coef@,
    {
        &self.coef
    }

    /// The value at `u` by De Casteljau's algorithm; `None` where an
    /// intermediate rational overflows `i64`.
    pub fn eval(&self, u: Rational) -> (r: Option<T>)
        requires
            self.wf(),
            u.wf(),
            self.coef@.len() >= 1,
        ensures
            self.coef@.len() == 1 ==> r == Some(self.coef@[0]),
            r is Some ==> r->0.ok() && r->0.val() == self.value_at(u@),
            self.eval_fits(u) ==> r is Some,
    {
        let n = self.coef.len();
        if n == 1 {
            return Some(self.coef[0]);
        }
        let w = self.segm.1.minus(&self.segm.0)?;
        let a = self.segm.1.minus(&u)?.checked_quot(&w)?;
        let b = u.minus(&self.segm.0)?.checked_quot(&w)?;
        assert(a == self.left_weight(u) && b == self.right_weight(u));
        let mut q = copy_all(&self.coef);
        assert(values(q@).subrange(0, n as int) =~= self.coefs());
        assert(q@.subrange(0, n as int) =~= self.coef@);
        let mut k: usize = 1;
        while k < n
            invariant
                1 <= k <= n,
                n == self.coef@.len(),
                q@.len() == n,
                all_ok(q@),
                a.wf(),
                b.wf(),
                casteljau(values(q@).subrange(0, n - k + 1), a@, b@) == casteljau(
                    self.coefs(),
                    a@,
                    b@,
                ),
                a == self.left_weight(u),
                b == self.right_weight(u),
                self.eval_fits(u) ==> casteljau_fits(q@.subrange(0, n - k + 1), a, b),
            decreases n - k,
        {
            let ghost prev = values(q@).subrange(0, n - k + 1);
            let ghost prev_rep = q@.subrange(0, n - k + 1);
            proof {
                if self.eval_fits(u) {
                    assert(casteljau_fits(prev_rep, a, b));
                }
            }
            let mut i: usize = 0;
            while i < n - k
                invariant
                    1 <= k < n,
                    n == self.coef@.len(),
                    0 <= i <= n - k,
                    q@.len() == n,
                    all_ok(q@),
                    a.wf(),
                    b.wf(),
                    prev.len() == n - k + 1,
                    forall|j: int| 0 <= j < i ==> values(q@)[j] == blend_step(prev, a@, b@)[j],
                    forall|j: int| i <= j < n - k + 1 ==> values(q@)[j] == prev[j],
                    prev_rep.len() == n - k + 1,
                    forall|j: int| 0 <= j < i ==> q@[j] == blend_rep(prev_rep, a, b)[j],
                    forall|j: int| i <= j < n - k + 1 ==> q@[j] == prev_rep[j],
                    self.eval_fits(u) ==> forall|j: int|
                        0 <= j < n - k ==> #[trigger] blend_one_fits(prev_rep, a, b, j),
                decreases n - k - i,
            {
                proof {
                    if self.eval_fits(u) {
                        assert(blend_one_fits(prev_rep, a, b, i as int));
                    }
                }
                let x = q[i].scaled_by(&a)?;
                let y = q[i + 1].scaled_by(&b)?;
                let z = x.plus(&y)?;
                proof {
                    assert(values(q@)[i as int] == prev[i as int]);
                    assert(values(q@)[i + 1] == prev[i + 1]);
                    assert(z.val() == blend_step(prev, a@, b@)[i as int]);
                }
                assert(z == blend_rep(prev_rep, a, b)[i as int]);
                let ghost before = q@;
                q.set(i, z);
                assert(values(q@) =~= values(before).update(i as int, z.val()));
                i += 1;
            }
            assert(values(q@).subrange(0, (n - k) as int) =~= blend_step(prev, a@, b@));
            assert(q@.subrange(0, (n - k) as int) =~= blend_rep(prev_rep, a, b));
            k += 1;
        }
        assert(values(q@).subrange(0, 1) =~= seq![q@[0].val()]);
        Some(q[0])
    }

    /// The derivative, of dimension one less, over the same interval; a
    /// constant gives the empty coefficient sequence. `None` where an
    /// intermediate rational overflows.
    pub fn diff(&self) -> (r: Option<Bernstein<T>>)
        requires
            self.wf(),
            self.coef@.len() >= 1,
        ensures
            self.coef@.len() == 1 ==> r is Some,
            r is Some ==> {
                &&& r->0.wf()
                &&& r->0.segm == self.segm
                &&& r->0.coefs() == diff_coefs(self.coefs(), self.lo(), self.hi())
            },
            self.diff_fits() ==> r is Some,
    {
        let n = self.coef.len();
        let mut out: Vec<T> = Vec::new();
        if n == 1 {
            let r = Bernstein { coef: out, segm: self.segm };
            assert(r.coefs() =~= diff_coefs(self.coefs(), self.lo(), self.hi()));
            return Some(r);
        }
        let w = self.segm.1.minus(&self.segm.0)?;
        let f = ratio_from_usize(n - 1)?.checked_quot(&w)?;
        assert(f == self.diff_factor());
        let ghost v = self.coefs();
        let ghost fv = (n - 1) as real / (self.hi() - self.lo());
        assert(f@ == fv);
        let mut i: usize = 0;
        while i < n - 1
            invariant
                n == self.coef@.len(),
                n >= 2,
                v == self.coefs(),
                self.wf(),
                f.wf(),
                f@ == fv,
                0 <= i <= n - 1,
                out@.len() == i,
                all_ok(out@),
                forall|t: int|
                    0 <= t < i ==> values(out@)[t] == cx_scale(cx_sub(v[t + 1], v[t]), fv),
                f == self.diff_factor(),
                self.diff_fits() ==> forall|j: int|
                    0 <= j < n - 1 ==> #[trigger] diff_one_fits(self.coef@, f, j),
            decreases n - 1 - i,
        {
            proof {
                if self.diff_fits() {
                    assert(diff_one_fits(self.coef@, f, i as int));
                }
            }
            let step = self.coef[i + 1].minus(&self.coef[i])?;
            let d = step.scaled_by(&f)?;
            let ghost before = out@;
            out.push(d);
            assert(values(out@) =~= values(before).push(d.val()));
            i += 1;
        }
        let r = Bernstein { coef: out, segm: self.segm };
        assert(r.coefs() =~= diff_coefs(v, self.lo(), self.hi()));
        Some(r)
    }

    /// The integral with constant of integration `c` (its value at `u0`), of
    /// dimension one more, over the same interval. `None` where an
    /// intermediate rational overflows.
    pub fn integ(&self, c: T) -> (r: Option<Bernstein<T>>)
        requires
            self.wf(),
            c.ok(),
            self.coef@.len() >= 1,
            self.coef@.len() < usize::MAX,
        ensures
            r is Some ==> {
                &&& r->0.wf()
                &&& r->0.segm == self.segm
                &&& r->0.coefs() == integ_coefs(self.coefs(), c.val(), self.lo(), self.hi())
            },
            self.integ_fits(c) ==> r is Some,
    {
        let n = self.coef.len();
        let w = self.segm.1.minus(&self.segm.0)?;
        let f = w.checked_quot(&ratio_from_usize(n)?)?;
        assert(f == self.integ_factor());
        let ghost v = self.coefs();
        let ghost fv = (self.hi() - self.lo()) / n as real;
        let mut out: Vec<T> = Vec::new();
        out.push(c);
        let mut acc = c;
        proof {
            assert(v.take(0).len() == 0);
            let z = seq_sum(v.take(0));
            assert(c.val() == cx_add(c.val(), cx_scale(z, fv))) by (nonlinear_arith)
                requires
                    z == cx_zero(),
            ;
        }
        let mut k: usize = 0;
        while k < n
            invariant
                n == self.coef@.len(),
                n < usize::MAX,
                v == self.coefs(),
                self.wf(),
                f.wf(),
                f@ == fv,
                0 <= k <= n,
                out@.len() == k + 1,
                all_ok(out@),
                c.ok(),
                acc.ok(),
                acc.val() == cx_add(c.val(), cx_scale(seq_sum(v.take(k as int)), fv)),
                forall|t: int|
                    0 <= t <= k ==> values(out@)[t] == cx_add(
                        c.val(),
                        cx_scale(seq_sum(v.take(t)), fv),
                    ),
                f == self.integ_factor(),
                acc == integ_acc(self.coef@, c, f, k as int),
                self.integ_fits(c) ==> forall|j: int|
                    0 <= j < n ==> #[trigger] integ_one_fits(self.coef@, c, f, j),
            decreases n - k,
        {
            proof {
                if self.integ_fits(c) {
                    assert(integ_one_fits(self.coef@, c, f, k as int));
                }
            }
            let part = self.coef[k].scaled_by(&f)?;
            acc = acc.plus(&part)?;
            proof {
                let s0 = seq_sum(v.take(k as int));
                assert(v.take(k + 1).drop_last() =~= v.take(k as int));
                assert(seq_sum(v.take(k + 1)) == cx_add(s0, v[k as int]));
                let x = v[k as int];
                let cv = c.val();
                assert(cx_add(cx_add(cv, cx_scale(s0, fv)), cx_scale(x, fv)) == cx_add(
                    cv,
                    cx_scale(cx_add(s0, x), fv),
                )) by (nonlinear_arith);
            }
            assert(acc == integ_acc(self.coef@, c, f, k + 1));
            let ghost before = out@;
            out.push(acc);
            assert(values(out@) =~= values(before).push(acc.val()));
            k += 1;
        }
        let r = Bernstein { coef: out, segm: self.segm };
        assert(r.coefs() =~= integ_coefs(v, c.val(), self.lo(), self.hi()));
        Some(r)
    }
}

} // verus!
