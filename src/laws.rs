//! Laws that relate the operations, proved over the model of the values.
use crate::coefficient::{cx_add, cx_mul, cx_scale, cx_sub, cx_zero, Coefficient};
use crate::ops::{binomial, prod_coef, prod_coefs, prod_term, sum_range};
use crate::poly::{blend_step, casteljau, diff_coefs, integ_coefs, seq_sum, Bernstein};
use vstd::prelude::*;

verus! {

/// Blending with weights (1, 0) keeps the first value.
proof fn lemma_casteljau_first(q: Seq<(real, real)>)
    requires
        q.len() >= 1,
    ensures
        casteljau(q, 1 as real, 0 as real) == q[0],
    decreases q.len(),
{
    if q.len() > 1 {
        let s = blend_step(q, 1 as real, 0 as real);
        assert(s =~= q.take(q.len() - 1));
        lemma_casteljau_first(s);
    }
}

/// Blending with weights (0, 1) keeps the last value.
proof fn lemma_casteljau_last(q: Seq<(real, real)>)
    requires
        q.len() >= 1,
    ensures
        casteljau(q, 0 as real, 1 as real) == q[q.len() - 1],
    decreases q.len(),
{
    if q.len() > 1 {
        let s = blend_step(q, 0 as real, 1 as real);
        assert(s =~= q.skip(1));
        lemma_casteljau_last(s);
    }
}

/// Endpoint interpolation: a polynomial takes its first coefficient at `u0`
/// and its last at `u1` (so, over the default interval, at 0 and at 1).
pub proof fn lemma_endpoints<T: Coefficient>(p: Bernstein<T>)
    requires
        p.wf(),
        p.coef@.len() >= 1,
    ensures
        p.value_at(p.lo()) == p.coefs()[0],
        p.value_at(p.hi()) == p.coefs()[p.coefs().len() - 1],
{
    let w = p.hi() - p.lo();
    assert((p.hi() - p.lo()) / w == 1 as real) by (nonlinear_arith)
        requires
            w == p.hi() - p.lo(),
            w != 0 as real,
    ;
    assert((p.lo() - p.lo()) / w == 0 as real) by (nonlinear_arith)
        requires
            w != 0 as real,
    ;
    assert((p.hi() - p.hi()) / w == 0 as real) by (nonlinear_arith)
        requires
            w != 0 as real,
    ;
    lemma_casteljau_first(p.coefs());
    lemma_casteljau_last(p.coefs());
}

/// Summing one more value of `v` adds that value.
proof fn lemma_sum_take_step(v: Seq<(real, real)>, k: int)
    requires
        0 <= k < v.len(),
    ensures
        seq_sum(v.take(k + 1)) == cx_add(seq_sum(v.take(k)), v[k]),
{
    assert(v.take(k + 1).drop_last() =~= v.take(k));
}

/// Differentiating the integral gives back the polynomial, whatever the
/// constant of integration.
pub proof fn lemma_diff_of_integ<T: Coefficient>(p: Bernstein<T>, c: (real, real))
    requires
        p.wf(),
        p.coef@.len() >= 1,
    ensures
        diff_coefs(integ_coefs(p.coefs(), c, p.lo(), p.hi()), p.lo(), p.hi()) == p.coefs(),
{
    let v = p.coefs();
    let n = v.len();
    let w = p.hi() - p.lo();
    let f = w / n as real;
    let u = integ_coefs(v, c, p.lo(), p.hi());
    let d = diff_coefs(u, p.lo(), p.hi());
    assert(u.len() == n + 1);
    assert forall|i: int| 0 <= i < n implies d[i] == v[i] by {
        lemma_sum_take_step(v, i);
        let s0 = seq_sum(v.take(i));
        let x = v[i];
        assert(u[i + 1] == cx_add(c, cx_scale(cx_add(s0, x), f)));
        assert(u[i] == cx_add(c, cx_scale(s0, f)));
        lemma_step_cancels(c.0, s0.0, x.0, w, n as real);
        lemma_step_cancels(c.1, s0.1, x.1, w, n as real);
    }
    assert(d =~= v);
}

/// `((c + (s + x) * (w / n)) - (c + s * (w / n))) * (n / w) == x`.
proof fn lemma_step_cancels(c: real, s: real, x: real, w: real, n: real)
    requires
        w != 0 as real,
        n != 0 as real,
    ensures
        ((c + (s + x) * (w / n)) - (c + s * (w / n))) * (n / w) == x,
{
    assert(((c + (s + x) * (w / n)) - (c + s * (w / n))) * (n / w) == x) by (nonlinear_arith)
        requires
            w != 0 as real,
            n != 0 as real,
    ;
}

/// `(a - v0) * g + (b - a) * g == (b - v0) * g`.
proof fn lemma_telescope_step(a: real, b: real, v0: real, g: real)
    ensures
        (a - v0) * g + (b - a) * g == (b - v0) * g,
{
    assert((a - v0) * g + (b - a) * g == (b - v0) * g) by (nonlinear_arith);
}

/// `v0 + ((x - v0) * (m / w)) * (w / m) == x`.
proof fn lemma_rescale_back(v0: real, x: real, w: real, m: real)
    requires
        w != 0 as real,
        m != 0 as real,
    ensures
        v0 + ((x - v0) * (m / w)) * (w / m) == x,
{
    assert(v0 + ((x - v0) * (m / w)) * (w / m) == x) by (nonlinear_arith)
        requires
            w != 0 as real,
            m != 0 as real,
    ;
}

/// The derivative's coefficients telescope: their first `k` sum to
/// `(v[k] - v[0]) * g`, where `g` is the derivative's scale.
proof fn lemma_telescope(v: Seq<(real, real)>, lo: real, hi: real, k: int)
    requires
        v.len() >= 2,
        0 <= k < v.len(),
    ensures
        seq_sum(diff_coefs(v, lo, hi).take(k)) == cx_scale(
            cx_sub(v[k], v[0]),
            (v.len() - 1) as real / (hi - lo),
        ),
    decreases k,
{
    let g = (v.len() - 1) as real / (hi - lo);
    let d = diff_coefs(v, lo, hi);
    if k == 0 {
        assert(d.take(0).len() == 0);
        let v0 = v[0];
        assert((v0.0 - v0.0) * g == 0 as real && (v0.1 - v0.1) * g == 0 as real)
            by (nonlinear_arith);
    } else {
        lemma_telescope(v, lo, hi, k - 1);
        lemma_sum_take_step(d, k - 1);
        let a = v[k - 1];
        let b = v[k];
        lemma_telescope_step(a.0, b.0, v[0].0, g);
        lemma_telescope_step(a.1, b.1, v[0].1, g);
    }
}

/// Integrating the derivative from the first coefficient gives back the
/// polynomial (dimension at least 2).
pub proof fn lemma_integ_of_diff<T: Coefficient>(p: Bernstein<T>)
    requires
        p.wf(),
        p.coef@.len() >= 2,
    ensures
        integ_coefs(diff_coefs(p.coefs(), p.lo(), p.hi()), p.coefs()[0], p.lo(), p.hi())
            == p.coefs(),
{
    let v = p.coefs();
    let n = v.len();
    let m = n - 1;
    let w = p.hi() - p.lo();
    let d = diff_coefs(v, p.lo(), p.hi());
    let u = integ_coefs(d, v[0], p.lo(), p.hi());
    assert(d.len() == m);
    assert forall|k: int| 0 <= k < n implies u[k] == v[k] by {
        lemma_telescope(v, p.lo(), p.hi(), k);
        lemma_rescale_back(v[0].0, v[k].0, w, m as real);
        lemma_rescale_back(v[0].1, v[k].1, w, m as real);
    }
    assert(u =~= v);
}

/// A sum may start with its first term.
proof fn lemma_sum_front(f: spec_fn(int) -> (real, real), lo: int, hi: int)
    requires
        lo < hi,
    ensures
        sum_range(f, lo, hi) == cx_add(f(lo), sum_range(f, lo + 1, hi)),
    decreases hi - lo,
{
    if lo + 1 < hi {
        lemma_sum_front(f, lo, hi - 1);
        assert(sum_range(f, lo + 1, hi) == cx_add(sum_range(f, lo + 1, hi - 1), f(hi - 1)));
    } else {
        assert(sum_range(f, lo, lo) == cx_zero());
        assert(sum_range(f, lo + 1, hi) == cx_zero());
    }
}

/// Sums of functions that agree on the range are equal.
proof fn lemma_sum_ext(
    f: spec_fn(int) -> (real, real),
    g: spec_fn(int) -> (real, real),
    lo: int,
    hi: int,
)
    requires
        forall|j: int| lo <= j < hi ==> #[trigger] f(j) == g(j),
    ensures
        sum_range(f, lo, hi) == sum_range(g, lo, hi),
    decreases hi - lo,
{
    if lo < hi {
        lemma_sum_ext(f, g, lo, hi - 1);
    }
}

/// Reflection `j -> c - j` of a sum's index.
proof fn lemma_sum_reflect(f: spec_fn(int) -> (real, real), c: int, lo: int, hi: int)
    ensures
        sum_range(f, lo, hi) == sum_range(|j: int| f(c - j), c - hi + 1, c - lo + 1),
    decreases hi - lo,
{
    let g = |j: int| f(c - j);
    if lo < hi {
        lemma_sum_reflect(f, c, lo, hi - 1);
        lemma_sum_front(g, c - hi + 1, c - lo + 1);
        assert(g(c - hi + 1) == f(hi - 1));
    }
}

/// `cx_scale(x * y, c1 * c2 / c3) == cx_scale(y * x, c2 * c1 / c3)`.
proof fn lemma_term_commutes(x: (real, real), y: (real, real), c1: real, c2: real, c3: real)
    ensures
        cx_scale(cx_mul(x, y), (c1 * c2) / c3) == cx_scale(cx_mul(y, x), (c2 * c1) / c3),
{
    assert(c1 * c2 == c2 * c1) by (nonlinear_arith);
    assert(x.0 * y.0 - x.1 * y.1 == y.0 * x.0 - y.1 * x.1) by (nonlinear_arith);
    assert(x.0 * y.1 + x.1 * y.0 == y.0 * x.1 + y.1 * x.0) by (nonlinear_arith);
}

/// The product of polynomials is commutative: `p * q` and `q * p` have the
/// same coefficients.
pub proof fn lemma_mul_commutes<T: Coefficient>(p: Bernstein<T>, q: Bernstein<T>)
    requires
        p.coef@.len() >= 1,
        q.coef@.len() >= 1,
    ensures
        prod_coefs(p.coefs(), q.coefs()) == prod_coefs(q.coefs(), p.coefs()),
{
    let a = p.coefs();
    let b = q.coefs();
    let m = a.len() - 1;
    let n = b.len() - 1;
    assert forall|k: int| 0 <= k < a.len() + b.len() - 1 implies prod_coef(a, b, k) == prod_coef(
        b,
        a,
        k,
    ) by {
        let lo = if k >= n {
            k - n
        } else {
            0
        };
        let hi = if m < k {
            m
        } else {
            k
        };
        let f = |j: int| prod_term(a, b, k, j);
        let g = |j: int| prod_term(b, a, k, j);
        lemma_sum_reflect(f, k, lo, hi + 1);
        let h = |j: int| f(k - j);
        assert forall|j: int| k - hi <= j < k - lo + 1 implies #[trigger] h(j) == g(j) by {
            let x = a[k - j];
            let y = b[j];
            let c1 = binomial(m as nat, (k - j) as nat) as real;
            let c2 = binomial(n as nat, j as nat) as real;
            let c3 = binomial((m + n) as nat, k as nat) as real;
            assert((n + m) as nat == (m + n) as nat);
            assert(k - (k - j) == j);
            lemma_term_commutes(x, y, c1, c2, c3);
        }
        lemma_sum_ext(h, g, k - hi, k - lo + 1);
    }
    assert(prod_coefs(a, b) =~= prod_coefs(b, a));
}

} // verus!
