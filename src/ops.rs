//! Binomial coefficients, products of polynomials and scaling.
use crate::coefficient::{cx_add, cx_mul, cx_scale, cx_zero, Coefficient};
use crate::poly::{all_ok, values, Bernstein};
use crate::rational::{product_fits, quotient_fits, ratio_from_usize, Rational};
use vstd::prelude::*;

verus! {

/// "n choose k", by Pascal's rule.
pub open spec fn binomial(n: nat, k: nat) -> nat
    decreases n,
{
    if k == 0 {
        1
    } else if n == 0 {
        0
    } else {
        binomial((n - 1) as nat, (k - 1) as nat) + binomial((n - 1) as nat, k)
    }
}

/// `binomial(n, k)` vanishes for `k > n`.
pub proof fn lemma_binomial_above(n: nat, k: nat)
    requires
        k > n,
    ensures
        binomial(n, k) == 0,
    decreases n,
{
    if n > 0 {
        lemma_binomial_above((n - 1) as nat, (k - 1) as nat);
        lemma_binomial_above((n - 1) as nat, k);
    }
}

/// `binomial(n, 1) == n`.
pub proof fn lemma_binomial_one(n: nat)
    ensures
        binomial(n, 1) == n,
    decreases n,
{
    if n > 0 {
        lemma_binomial_one((n - 1) as nat);
        assert(binomial(n, 1) == binomial((n - 1) as nat, 0) + binomial((n - 1) as nat, 1));
    }
}

/// Absorption: `(k + 1) * binomial(n + 1, k + 1) == (n + 1) * binomial(n, k)`.
pub proof fn lemma_binomial_absorb(n: nat, k: nat)
    ensures
        (k + 1) * binomial(n + 1, k + 1) == (n + 1) * binomial(n, k),
    decreases n,
{
    assert(binomial(n + 1, k + 1) == binomial(n, k) + binomial(n, k + 1));
    if n == 0 {
        lemma_binomial_above(0, k + 1);
        if k > 0 {
            lemma_binomial_above(0, k);
            assert(binomial(1, k + 1) == 0);
        } else {
            assert(binomial(1, 1) == 1);
        }
    } else if k == 0 {
        lemma_binomial_one(n + 1);
        assert(binomial(n, 0) == 1);
    } else {
        let n1 = (n - 1) as nat;
        lemma_binomial_absorb(n1, k);
        lemma_binomial_absorb(n1, (k - 1) as nat);
        let a = binomial(n, k);
        let b = binomial(n, k + 1);
        let c = binomial(n1, (k - 1) as nat);
        let d = binomial(n1, k);
        assert(a == c + d);
        assert((k + 1) * b == n * d);
        assert(k * a == n * c);
        assert(binomial(n + 1, k + 1) == a + b);
        assert((k + 1) * (a + b) == (n + 1) * a) by (nonlinear_arith)
            requires
                (k + 1) * b == n * d,
                k * a == n * c,
                a == c + d,
        ;
    }
}

/// The products met by the multiplicative recurrence grow with the step:
/// `binomial(d + j, j) * j <= binomial(d + k, k) * k` for `j <= k`.
proof fn lemma_recurrence_grows(d: nat, j: nat, k: nat)
    requires
        j <= k,
    ensures
        binomial(d + j, j) * j <= binomial(d + k, k) * k,
    decreases k - j,
{
    if j < k {
        lemma_recurrence_grows(d, j + 1, k);
        lemma_binomial_absorb(d + j, j);
        let c = binomial(d + j, j);
        let c1 = binomial(d + j + 1, j + 1);
        assert(c * j <= c1 * (j + 1)) by (nonlinear_arith)
            requires
                (j + 1) * c1 == (d + j + 1) * c,
        ;
    }
}

/// "n choose k" by the multiplicative recurrence
/// `next = next * (n - k + 1 + i) / (i + 1)`; `None` exactly where an
/// intermediate product, the last of which is `binomial(n, k) * k`, overflows
/// `usize`.
pub fn binom(n: usize, k: usize) -> (r: Option<usize>)
    ensures
        r is Some ==> r->0 == binomial(n as nat, k as nat),
        k > n ==> r == Some(0usize),
        k == 0 ==> r == Some(1usize),
        r is Some <==> (k > n || k < 2 || binomial(n as nat, k as nat) * k <= usize::MAX),
{
    if k > n {
        proof {
            lemma_binomial_above(n as nat, k as nat);
        }
        return Some(0);
    }
    if k == 0 {
        return Some(1);
    }
    let ghost d = (n - k) as nat;
    let mut next: usize = n - k + 1;
    proof {
        lemma_binomial_one(d + 1);
    }
    let mut i: usize = 1;
    while i < k
        invariant
            1 <= i <= k <= n,
            d == n - k,
            next == binomial((d + i) as nat, i as nat),
            i >= 2 ==> binomial((d + i) as nat, i as nat) * i <= usize::MAX,
        decreases k - i,
    {
        let a: usize = n - k + 1 + i;
        proof {
            lemma_binomial_absorb((d + i) as nat, i as nat);
            lemma_recurrence_grows(d, (i + 1) as nat, k as nat);
            assert(d + k == n);
            let c1 = binomial((d + i + 1) as nat, (i + 1) as nat);
            let ii = i as int;
            assert(next * a == c1 * (ii + 1)) by (nonlinear_arith)
                requires
                    (ii + 1) * c1 == (d + ii + 1) * next,
                    a == d + ii + 1,
            ;
        }
        let p = match next.checked_mul(a) {
            Some(p) => p,
            None => {
                return None;
            },
        };
        let ghost c1 = binomial((d + i + 1) as nat, (i + 1) as nat);
        let ghost m = (i + 1) as int;
        assert(p == c1 * m);
        assert(p as int / m == c1) by (nonlinear_arith)
            requires
                p == c1 * m,
                m > 0,
        ;
        next = p / (i + 1);
        i += 1;
    }
    proof {
        assert(d + k == n);
    }
    Some(next)
}

/// Lower bound of the product's inner sum: `a - b` where `a >= b`, else 0.
pub fn low_bound(a: usize, b: usize) -> (r: usize)
    ensures
        r == if a >= b {
            a - b
        } else {
            0
        },
{
    if a >= b {
        a - b
    } else {
        0
    }
}

/// `f(lo) + f(lo + 1) + ... + f(hi - 1)`.
pub open spec fn sum_range(f: spec_fn(int) -> (real, real), lo: int, hi: int) -> (real, real)
    decreases hi - lo,
{
    if hi <= lo {
        cx_zero()
    } else {
        cx_add(sum_range(f, lo, hi - 1), f(hi - 1))
    }
}

/// Term `j` of coefficient `k` of the product of `p` (order `m`) and `q`
/// (order `n`): `p[j] * q[k - j] * (C(m, j) * C(n, k - j) / C(m + n, k))`.
pub open spec fn prod_term(p: Seq<(real, real)>, q: Seq<(real, real)>, k: int, j: int) -> (
    real,
    real,
) {
    let m = p.len() - 1;
    let n = q.len() - 1;
    cx_scale(
        cx_mul(p[j], q[k - j]),
        (binomial(m as nat, j as nat) as real * binomial(n as nat, (k - j) as nat) as real)
            / binomial((m + n) as nat, k as nat) as real,
    )
}

/// Coefficient `k` of the product: its terms for `max(0, k - n) <= j <= min(m, k)`.
pub open spec fn prod_coef(p: Seq<(real, real)>, q: Seq<(real, real)>, k: int) -> (real, real) {
    let m = p.len() - 1;
    let n = q.len() - 1;
    let lo = if k >= n {
        k - n
    } else {
        0
    };
    let hi = if m < k {
        m
    } else {
        k
    };
    sum_range(|j: int| prod_term(p, q, k, j), lo, hi + 1)
}

/// Coefficients of the product of two polynomials given by their
/// coefficients, of dimension `p.len() + q.len() - 1`.
pub open spec fn prod_coefs(p: Seq<(real, real)>, q: Seq<(real, real)>) -> Seq<(real, real)> {
    Seq::new((p.len() + q.len() - 1) as nat, |k: int| prod_coef(p, q, k))
}

/// Each value of `v` multiplied by `s`.
pub open spec fn scaled(v: Seq<(real, real)>, s: real) -> Seq<(real, real)> {
    Seq::new(v.len(), |i: int| cx_scale(v[i], s))
}

/// `binom(n, k)` does not overflow.
pub open spec fn binom_fits(n: int, k: int) -> bool {
    k > n || k < 2 || binomial(n as nat, k as nat) * k <= usize::MAX
}

/// First index `max(0, k - n)` of the terms of product coefficient `k`.
pub open spec fn prod_lo(n: int, k: int) -> int {
    if k >= n {
        k - n
    } else {
        0
    }
}

/// The weight `C(m, j) * C(n, k - j) / C(m + n, k)` as `mul` computes it.
pub open spec fn weight_of(m: int, n: int, k: int, j: int) -> Rational {
    let left = Rational::of_int(binomial(m as nat, j as nat) as int);
    let right = Rational::of_int(binomial(n as nat, (k - j) as nat) as int);
    let whole = Rational::of_int(binomial((m + n) as nat, k as nat) as int);
    left.times_of(right).quot_of(whole)
}

/// Computing `weight_of(m, n, k, j)` does not overflow.
pub open spec fn weight_fits(m: int, n: int, k: int, j: int) -> bool {
    let cl = binomial(m as nat, j as nat) as int;
    let cr = binomial(n as nat, (k - j) as nat) as int;
    let cw = binomial((m + n) as nat, k as nat) as int;
    &&& binom_fits(m, j)
    &&& binom_fits(n, k - j)
    &&& cl <= i64::MAX
    &&& cr <= i64::MAX
    &&& product_fits(Rational::of_int(cl), Rational::of_int(cr))
    &&& quotient_fits(Rational::of_int(cl).times_of(Rational::of_int(cr)), Rational::of_int(cw))
}

/// Term `j` of product coefficient `k`, as `mul` computes it.
pub open spec fn term_of<T: Coefficient>(p: Seq<T>, q: Seq<T>, k: int, j: int) -> T {
    p[j].times_of(q[k - j]).scaled_of(weight_of(p.len() - 1, q.len() - 1, k, j))
}

/// The running sum of the terms of product coefficient `k` before index `j`.
pub open spec fn conv_acc<T: Coefficient>(p: Seq<T>, q: Seq<T>, k: int, j: int) -> T
    decreases j - prod_lo(q.len() - 1, k),
{
    if j <= prod_lo(q.len() - 1, k) {
        T::zero_of()
    } else {
        conv_acc(p, q, k, j - 1).plus_of(term_of(p, q, k, j - 1))
    }
}

/// Computing term `j` of coefficient `k` and adding it does not overflow.
pub open spec fn term_fits<T: Coefficient>(p: Seq<T>, q: Seq<T>, k: int, j: int) -> bool {
    let w = weight_of(p.len() - 1, q.len() - 1, k, j);
    &&& weight_fits(p.len() - 1, q.len() - 1, k, j)
    &&& p[j].times_fits(q[k - j])
    &&& p[j].times_of(q[k - j]).scale_fits(w)
    &&& conv_acc(p, q, k, j).plus_fits(term_of(p, q, k, j))
}

/// Computing product coefficient `k` does not overflow.
pub open spec fn coef_fits<T: Coefficient>(p: Seq<T>, q: Seq<T>, k: int) -> bool {
    let m = p.len() - 1;
    let n = q.len() - 1;
    let hi = if m < k {
        m
    } else {
        k
    };
    &&& binom_fits(m + n, k)
    &&& binomial((m + n) as nat, k as nat) <= i64::MAX
    &&& forall|j: int| prod_lo(n, k) <= j <= hi ==> #[trigger] term_fits(p, q, k, j)
}

/// Computing the product of `p` and `q` does not overflow.
pub open spec fn mul_fits<T: Coefficient>(p: Seq<T>, q: Seq<T>) -> bool {
    forall|k: int| 0 <= k < p.len() + q.len() - 1 ==> #[trigger] coef_fits(p, q, k)
}

/// Scaling every coefficient of `v` by `s` does not overflow.
pub open spec fn scale_all_fits<T: Coefficient>(v: Seq<T>, s: Rational) -> bool {
    forall|i: int| 0 <= i < v.len() ==> #[trigger] v[i].scale_fits(s)
}

impl<T: Coefficient> Bernstein<T> {
    /// The product `self * rhs` in the Bernstein basis, over the interval of
    /// `self`; `None` where a binomial coefficient or an intermediate rational
    /// overflows.
    pub fn mul(&self, rhs: &Bernstein<T>) -> (r: Option<Bernstein<T>>)
        requires
            self.wf(),
            rhs.wf(),
            self.coef@.len() >= 1,
            rhs.coef@.len() >= 1,
            self.coef@.len() + rhs.coef@.len() <= usize::MAX,
        ensures
            r is Some ==> {
                &&& r->0.wf()
                &&& r->0.segm == self.segm
                &&& r->0.coefs() == prod_coefs(self.coefs(), rhs.coefs())
            },
            mul_fits(self.coef@, rhs.coef@) ==> r is Some,
            (exists|k: int|
                0 <= k < self.coef@.len() + rhs.coef@.len() - 1 && !#[trigger] binom_fits(
                    self.coef@.len() + rhs.coef@.len() - 2,
                    k,
                )) ==> r is None,
    {
        let m = self.coef.len() - 1;
        let n = rhs.coef.len() - 1;
        let ghost pv = self.coefs();
        let ghost qv = rhs.coefs();
        let mut out: Vec<T> = Vec::new();
        let mut k: usize = 0;
        while k <= m + n
            invariant
                m == pv.len() - 1,
                n == qv.len() - 1,
                pv == self.coefs(),
                qv == rhs.coefs(),
                self.wf(),
                rhs.wf(),
                m + n < usize::MAX,
                k <= m + n + 1,
                out@.len() == k,
                all_ok(out@),
                forall|t: int| 0 <= t < k ==> values(out@)[t] == prod_coef(pv, qv, t),
                forall|t: int| 0 <= t < k ==> #[trigger] binom_fits((m + n) as int, t),
            decreases m + n + 1 - k,
        {
            let ghost fits = mul_fits(self.coef@, rhs.coef@);
            proof {
                if fits {
                    assert(coef_fits(self.coef@, rhs.coef@, k as int));
                }
            }
            let lo = low_bound(k, n);
            let hi = if m < k {
                m
            } else {
                k
            };
            let cw = binom(m + n, k)?;
            let whole = ratio_from_usize(cw)?;
            let ghost f = |j: int| prod_term(pv, qv, k as int, j);
            let mut acc = T::zero();
            let mut j = lo;
            while j <= hi
                invariant
                    m == pv.len() - 1,
                    n == qv.len() - 1,
                    pv == self.coefs(),
                    qv == rhs.coefs(),
                    self.wf(),
                    rhs.wf(),
                    k <= m + n,
                    m + n < usize::MAX,
                    lo == (if k >= n { k - n } else { 0 }),
                    hi == (if m < k { m } else { k }),
                    lo <= j <= hi + 1,
                    whole.wf(),
                    whole@ == binomial((m + n) as nat, k as nat) as real,
                    acc.ok(),
                    acc.val() == sum_range(f, lo as int, j as int),
                    f == (|jj: int| prod_term(pv, qv, k as int, jj)),
                    whole == Rational::of_int(binomial((m + n) as nat, k as nat) as int),
                    acc == conv_acc(self.coef@, rhs.coef@, k as int, j as int),
                    fits == mul_fits(self.coef@, rhs.coef@),
                    fits ==> coef_fits(self.coef@, rhs.coef@, k as int),
                decreases hi + 1 - j,
            {
                proof {
                    if fits {
                        assert(term_fits(self.coef@, rhs.coef@, k as int, j as int));
                    }
                }
                let left = ratio_from_usize(binom(m, j)?)?;
                let right = ratio_from_usize(binom(n, k - j)?)?;
                let weight = left.times(&right)?.checked_quot(&whole)?;
                let pq = self.coef[j].times(&rhs.coef[k - j])?;
                let term = pq.scaled_by(&weight)?;
                proof {
                    assert(term.val() == f(j as int));
                    assert(weight == weight_of(m as int, n as int, k as int, j as int));
                    assert(term == term_of(self.coef@, rhs.coef@, k as int, j as int));
                }
                acc = acc.plus(&term)?;
                proof {
                    assert(acc == conv_acc(self.coef@, rhs.coef@, k as int, j + 1));
                }
                j += 1;
            }
            proof {
                assert(acc.val() == prod_coef(pv, qv, k as int));
            }
            let ghost before = out@;
            out.push(acc);
            proof {
                assert(values(out@) =~= values(before).push(acc.val()));
            }
            k += 1;
        }
        let r = Bernstein { coef: out, segm: self.segm };
        assert(r.coefs() =~= prod_coefs(pv, qv));
        assert(forall|t: int| 0 <= t < m + n + 1 ==> #[trigger] binom_fits((m + n) as int, t));
        Some(r)
    }

    /// Every coefficient multiplied by the scalar `s`, over the same
    /// interval; `None` where a product overflows.
    pub fn scale(&self, s: Rational) -> (r: Option<Bernstein<T>>)
        requires
            self.wf(),
            s.wf(),
        ensures
            r is Some ==> {
                &&& r->0.wf()
                &&& r->0.segm == self.segm
                &&& r->0.coefs() == scaled(self.coefs(), s@)
            },
            scale_all_fits(self.coef@, s) ==> r is Some,
    {
        let n = self.coef.len();
        let ghost v = self.coefs();
        let mut out: Vec<T> = Vec::new();
        let mut i: usize = 0;
        while i < n
            invariant
                n == self.coef@.len(),
                v == self.coefs(),
                self.wf(),
                s.wf(),
                0 <= i <= n,
                out@.len() == i,
                all_ok(out@),
                forall|t: int| 0 <= t < i ==> values(out@)[t] == cx_scale(v[t], s@),
            decreases n - i,
        {
            let x = self.coef[i].scaled_by(&s)?;
            let ghost before = out@;
            out.push(x);
            assert(values(out@) =~= values(before).push(x.val()));
            i += 1;
        }
        let r = Bernstein { coef: out, segm: self.segm };
        assert(r.coefs() =~= scaled(v, s@));
        Some(r)
    }
}

} // verus!
