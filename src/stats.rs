use vstd::arithmetic::mul::{
    lemma_mul_is_associative, lemma_mul_is_commutative, lemma_mul_is_distributive_add,
};
use vstd::prelude::*;

verus! {

/// The samples as mathematical integers.
pub open spec fn ints(s: Seq<i32>) -> Seq<int> {
    s.map_values(|v: i32| v as int)
}

pub open spec fn sum(s: Seq<int>) -> int
    decreases s.len(),
{
    if s.len() == 0 {
        0
    } else {
        sum(s.drop_last()) + s.last()
    }
}

pub open spec fn sum_sq(s: Seq<int>) -> int
    decreases s.len(),
{
    if s.len() == 0 {
        0
    } else {
        sum_sq(s.drop_last()) + s.last() * s.last()
    }
}

/// Sum of the products of the items of `a` and `b` at the same positions.
pub open spec fn sum_prod(a: Seq<int>, b: Seq<int>) -> int
    decreases a.len(),
{
    if a.len() == 0 {
        0
    } else {
        sum_prod(a.drop_last(), b.drop_last()) + a.last() * b[a.len() - 1]
    }
}

/// `n·Σxy − Σx·Σy`: `n²` times the covariance.
pub open spec fn co_spread(a: Seq<int>, b: Seq<int>) -> int {
    a.len() * sum_prod(a, b) - sum(a) * sum(b)
}

/// `n·Σx² − (Σx)²`: `n²` times the variance.
pub open spec fn spread(a: Seq<int>) -> int {
    a.len() * sum_sq(a) - sum(a) * sum(a)
}

/// Sum of the squared distances of the items of `s` from `w`.
pub open spec fn dev_sq(s: Seq<int>, w: int) -> int
    decreases s.len(),
{
    if s.len() == 0 {
        0
    } else {
        dev_sq(s.drop_last(), w) + (s.last() - w) * (s.last() - w)
    }
}

/// Item by item, `p·y + r·x`.
pub open spec fn lin(p: int, y: Seq<int>, r: int, x: Seq<int>) -> Seq<int> {
    Seq::new(y.len(), |i: int| p * y[i] + r * x[i])
}

proof fn lemma_dev_sq(s: Seq<int>, w: int)
    ensures
        dev_sq(s, w) >= 0,
        dev_sq(s, w) == sum_sq(s) - 2 * w * sum(s) + s.len() * w * w,
    decreases s.len(),
{
    if s.len() > 0 {
        lemma_dev_sq(s.drop_last(), w);
        let m = s.len() - 1;
        let l = s.last();
        assert((l - w) * (l - w) >= 0) by (nonlinear_arith);
        assert((l - w) * (l - w) == l * l - 2 * w * l + w * w) by (nonlinear_arith);
        assert(s.len() * w * w == m * w * w + w * w) by (nonlinear_arith)
            requires
                m == s.len() - 1,
        ;
        assert(2 * w * (sum(s.drop_last()) + l) == 2 * w * sum(s.drop_last()) + 2 * w * l)
            by (nonlinear_arith);
    }
}

/// `n·Σx² ≥ (Σx)²` for every sequence.
proof fn lemma_spread_nonneg(s: Seq<int>)
    ensures
        spread(s) >= 0,
    decreases s.len(),
{
    if s.len() > 0 {
        let t = s.drop_last();
        let w = s.last();
        lemma_spread_nonneg(t);
        lemma_dev_sq(t, w);
        let m = t.len() as int;
        let q = sum_sq(t);
        let a = sum(t);
        assert(spread(s) == (m + 1) * (q + w * w) - (a + w) * (a + w));
        assert((m + 1) * (q + w * w) - (a + w) * (a + w) == (m * q - a * a) + (q - 2 * w * a + m
            * w * w)) by (nonlinear_arith);
    }
}

proof fn lemma_lin_sums(p: int, y: Seq<int>, r: int, x: Seq<int>)
    requires
        y.len() == x.len(),
    ensures
        sum(lin(p, y, r, x)) == p * sum(y) + r * sum(x),
        sum_sq(lin(p, y, r, x)) == p * p * sum_sq(y) + 2 * p * r * sum_prod(y, x) + r * r * sum_sq(
            x,
        ),
    decreases y.len(),
{
    let z = lin(p, y, r, x);
    if y.len() > 0 {
        let y2 = y.drop_last();
        let x2 = x.drop_last();
        lemma_lin_sums(p, y2, r, x2);
        assert(z.drop_last() =~= lin(p, y2, r, x2));
        let a = y.last();
        let b = x.last();
        assert(z.last() == p * a + r * b);
        assert(p * (sum(y2) + a) + r * (sum(x2) + b) == p * sum(y2) + r * sum(x2) + (p * a + r * b))
            by (nonlinear_arith);
        let u = p * a;
        let v = r * b;
        assert((u + v) * (u + v) == u * u + 2 * (u * v) + v * v) by (nonlinear_arith);
        assert(u * u == p * p * (a * a)) by (nonlinear_arith)
            requires
                u == p * a,
        ;
        assert(v * v == r * r * (b * b)) by (nonlinear_arith)
            requires
                v == r * b,
        ;
        assert(2 * (u * v) == 2 * p * r * (a * b)) by (nonlinear_arith)
            requires
                u == p * a,
                v == r * b,
        ;
        assert(p * p * (sum_sq(y2) + a * a) + 2 * p * r * (sum_prod(y2, x2) + a * b) + r * r * (
        sum_sq(x2) + b * b) == p * p * sum_sq(y2) + 2 * p * r * sum_prod(y2, x2) + r * r * sum_sq(
            x2,
        ) + (p * p * (a * a) + 2 * p * r * (a * b) + r * r * (b * b))) by (nonlinear_arith);
    } else {
        assert(p * 0 + r * 0 == 0) by (nonlinear_arith);
        assert(p * p * 0 + 2 * p * r * 0 + r * r * 0 == 0) by (nonlinear_arith);
    }
}

proof fn lemma_sum_prod_comm(a: Seq<int>, b: Seq<int>)
    requires
        a.len() == b.len(),
    ensures
        sum_prod(a, b) == sum_prod(b, a),
    decreases a.len(),
{
    if a.len() > 0 {
        lemma_sum_prod_comm(a.drop_last(), b.drop_last());
        assert(a.last() * b.last() == b.last() * a.last()) by (nonlinear_arith);
    }
}

/// For all integers `p`, `r`: `p²·S(y) + 2pr·C(y, x) + r²·S(x) ≥ 0`, where `S` is the
/// spread and `C` the co-spread.
proof fn lemma_quadratic_nonneg(p: int, y: Seq<int>, r: int, x: Seq<int>)
    requires
        y.len() == x.len(),
    ensures
        p * p * spread(y) + 2 * p * r * co_spread(y, x) + r * r * spread(x) >= 0,
{
    let z = lin(p, y, r, x);
    lemma_lin_sums(p, y, r, x);
    lemma_spread_nonneg(z);
    let n = y.len() as int;
    let sy = sum(y);
    let sx = sum(x);
    let qy = sum_sq(y);
    let qx = sum_sq(x);
    let c = sum_prod(y, x);
    let aa = p * p;
    let bb = 2 * p * r;
    let cc = r * r;
    let t1 = aa * qy;
    let t2 = bb * c;
    let t3 = cc * qx;
    lemma_mul_is_distributive_add(n, t1 + t2, t3);
    lemma_mul_is_distributive_add(n, t1, t2);
    lemma_mul_is_associative(n, aa, qy);
    lemma_mul_is_associative(n, bb, c);
    lemma_mul_is_associative(n, cc, qx);
    lemma_mul_is_associative(aa, n, qy);
    lemma_mul_is_associative(bb, n, c);
    lemma_mul_is_associative(cc, n, qx);
    lemma_mul_is_commutative(n, aa);
    lemma_mul_is_commutative(n, bb);
    lemma_mul_is_commutative(n, cc);
    assert(n * (aa * qy + bb * c + cc * qx) == aa * (n * qy) + bb * (n * c) + cc * (n * qx));
    let u = p * sy;
    let v = r * sx;
    assert((u + v) * (u + v) == u * u + 2 * (u * v) + v * v) by (nonlinear_arith);
    assert(u * u == aa * (sy * sy)) by (nonlinear_arith)
        requires
            u == p * sy,
            aa == p * p,
    ;
    assert(v * v == cc * (sx * sx)) by (nonlinear_arith)
        requires
            v == r * sx,
            cc == r * r,
    ;
    assert(2 * (u * v) == bb * (sy * sx)) by (nonlinear_arith)
        requires
            u == p * sy,
            v == r * sx,
            bb == 2 * p * r,
    ;
    assert(aa * (n * qy) - aa * (sy * sy) == aa * (n * qy - sy * sy)) by (nonlinear_arith);
    assert(bb * (n * c) - bb * (sy * sx) == bb * (n * c - sy * sx)) by (nonlinear_arith);
    assert(cc * (n * qx) - cc * (sx * sx) == cc * (n * qx - sx * sx)) by (nonlinear_arith);
}

/// The co-spread of two series of one length is bounded by their spreads:
/// `C(a, b)² ≤ S(a)·S(b)`, so the correlation coefficient `C / √(S(a)·S(b))` lies in
/// `[-1, 1]` wherever it is defined.
pub proof fn lemma_correlation_bounded(a: Seq<int>, b: Seq<int>)
    requires
        a.len() == b.len(),
    ensures
        spread(a) >= 0,
        spread(b) >= 0,
        co_spread(a, b) * co_spread(a, b) <= spread(a) * spread(b),
{
    lemma_spread_nonneg(a);
    lemma_spread_nonneg(b);
    lemma_sum_prod_comm(a, b);
    let sa = spread(a);
    let sb = spread(b);
    let c = co_spread(a, b);
    assert(co_spread(b, a) == c);
    if sa > 0 {
        lemma_quadratic_nonneg(sa, b, -c, a);
        assert(sa * sa * sb + 2 * sa * (-c) * c + (-c) * (-c) * sa == sa * (sa * sb - c * c))
            by (nonlinear_arith);
        assert(sa * sb - c * c >= 0) by (nonlinear_arith)
            requires
                sa > 0,
                sa * (sa * sb - c * c) >= 0,
        ;
    } else {
        assert(sa == 0);
        let r = -c * (sb + 1);
        lemma_quadratic_nonneg(1, b, r, a);
        assert(1 * 1 * sb + 2 * 1 * r * c + r * r * sa == sb - 2 * c * c * (sb + 1))
            by (nonlinear_arith)
            requires
                sa == 0,
                r == -c * (sb + 1),
        ;
        assert(c == 0) by (nonlinear_arith)
            requires
                sb >= 0,
                sb - 2 * c * c * (sb + 1) >= 0,
        ;
        assert(c * c <= sa * sb) by (nonlinear_arith)
            requires
                c == 0,
                sa == 0,
        ;
    }
}

/// A series is perfectly correlated with itself: its co-spread with itself is its
/// spread, so the coefficient is 1 wherever it is defined.
pub proof fn lemma_correlation_self(a: Seq<int>)
    ensures
        co_spread(a, a) == spread(a),
        co_spread(a, a) * co_spread(a, a) == spread(a) * spread(a),
{
    lemma_sum_prod_sq(a);
}

proof fn lemma_sum_prod_sq(a: Seq<int>)
    ensures
        sum_prod(a, a) == sum_sq(a),
    decreases a.len(),
{
    if a.len() > 0 {
        lemma_sum_prod_sq(a.drop_last());
    }
}

/// Sums of `k - a`, item by item, from those of `a`.
proof fn lemma_mirror_sums(a: Seq<int>, b: Seq<int>, k: int)
    requires
        a.len() == b.len(),
        forall|i: int| 0 <= i < a.len() ==> #[trigger] b[i] == k - a[i],
    ensures
        sum(b) == a.len() * k - sum(a),
        sum_sq(b) == a.len() * k * k - 2 * k * sum(a) + sum_sq(a),
        sum_prod(a, b) == k * sum(a) - sum_sq(a),
    decreases a.len(),
{
    if a.len() > 0 {
        let a2 = a.drop_last();
        let b2 = b.drop_last();
        lemma_mirror_sums(a2, b2, k);
        let m = a2.len() as int;
        let x = a.last();
        assert(b.last() == k - x);
        assert(a.len() * k == m * k + k) by (nonlinear_arith)
            requires
                m == a.len() - 1,
        ;
        assert(a.len() * k * k == m * k * k + k * k) by (nonlinear_arith)
            requires
                m == a.len() - 1,
        ;
        assert((k - x) * (k - x) == k * k - 2 * k * x + x * x) by (nonlinear_arith);
        assert(2 * k * (sum(a2) + x) == 2 * k * sum(a2) + 2 * k * x) by (nonlinear_arith);
        assert(x * (k - x) == k * x - x * x) by (nonlinear_arith);
        assert(k * (sum(a2) + x) == k * sum(a2) + k * x) by (nonlinear_arith);
    }
}

/// An arithmetic progression is perfectly anti-correlated with its reverse: the
/// co-spread is minus the spread, and both spreads agree, so the coefficient is -1
/// wherever it is defined. (Of monotonic series that are not progressions this does not
/// hold in general.)
pub proof fn lemma_correlation_reversed_progression(a: Seq<int>, d: int)
    requires
        forall|i: int| 0 <= i < a.len() ==> #[trigger] a[i] == a[0] + i * d,
    ensures
        co_spread(a, a.reverse()) == -spread(a),
        spread(a.reverse()) == spread(a),
{
    let n = a.len() as int;
    if n > 0 {
        let k = 2 * a[0] + (n - 1) * d;
        let b = a.reverse();
        assert forall|i: int| 0 <= i < n implies #[trigger] b[i] == k - a[i] by {
            assert(b[i] == a[n - 1 - i]);
            assert(a[n - 1 - i] == a[0] + (n - 1 - i) * d);
            assert((n - 1 - i) * d == (n - 1) * d - i * d) by (nonlinear_arith);
        }
        lemma_mirror_sums(a, b, k);
        let s = sum(a);
        let q = sum_sq(a);
        assert(n * (k * s - q) - s * (n * k - s) == -(n * q - s * s)) by (nonlinear_arith);
        assert(n * (n * k * k - 2 * k * s + q) - (n * k - s) * (n * k - s) == n * q - s * s)
            by (nonlinear_arith);
    }
}

} // verus!
