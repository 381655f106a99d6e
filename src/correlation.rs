use vstd::prelude::*;

use crate::evaluate::{class_count, lemma_sums_equal_total, pair_count, ConfusionMatrix};
use crate::label::Label;

verus! {

/// The total of class `k` among per-class totals `m` (fail, half, pass).
pub open spec fn margin(m: (int, int, int), k: Label) -> int {
    match k {
        Label::Fail => m.0,
        Label::Half => m.1,
        Label::Pass => m.2,
    }
}

/// Component `k` of the one-hot vector of class `l`, scaled by `s` and
/// centred on the totals `m`.
pub open spec fn centred(l: Label, k: Label, m: (int, int, int), s: int) -> int {
    (if l == k {
        s
    } else {
        0
    }) - margin(m, k)
}

/// Inner product of the centred vectors of classes `l1` and `l2`.
pub open spec fn centred_dot(l1: Label, m1: (int, int, int), l2: Label, m2: (int, int, int), s: int) -> int {
    centred(l1, Label::Fail, m1, s) * centred(l2, Label::Fail, m2, s) + centred(l1, Label::Half, m1, s)
        * centred(l2, Label::Half, m2, s) + centred(l1, Label::Pass, m1, s) * centred(
        l2,
        Label::Pass,
        m2,
        s,
    )
}

/// Sum over the first `n` samples of the inner products of the centred
/// vectors of `a` and `b`.
pub open spec fn centred_sum(
    a: Seq<Label>,
    ma: (int, int, int),
    b: Seq<Label>,
    mb: (int, int, int),
    s: int,
    n: nat,
) -> int
    decreases n,
{
    if n == 0 {
        0
    } else {
        centred_sum(a, ma, b, mb, s, (n - 1) as nat) + centred_dot(a[n - 1], ma, b[n - 1], mb, s)
    }
}

/// Expansion of a product of two three-term sums.
proof fn lemma_expand(p0: int, p1: int, p2: int, r0: int, r1: int, r2: int)
    ensures
        (p0 + p1 + p2) * (r0 + r1 + r2) == p0 * r0 + p0 * r1 + p0 * r2 + p1 * r0 + p1 * r1 + p1 * r2
            + p2 * r0 + p2 * r1 + p2 * r2,
{
    assert((p0 + p1 + p2) * (r0 + r1 + r2) == p0 * r0 + p0 * r1 + p0 * r2 + p1 * r0 + p1 * r1 + p1
        * r2 + p2 * r0 + p2 * r1 + p2 * r2) by (nonlinear_arith);
}

/// `(a·a)(b·b) == (a·b)(a·b)` and `(a·b)(c·d) == (a·d)(c·b)`.
proof fn lemma_regroup(a: int, b: int, c: int, d: int)
    ensures
        (a * a) * (b * b) == (a * b) * (a * b),
        (a * b) * (c * d) == (a * d) * (c * b),
{
    assert((a * a) * (b * b) == (a * b) * (a * b)) by (nonlinear_arith);
    assert((a * b) * (c * d) == (a * d) * (c * b)) by (nonlinear_arith);
}

/// `(u − v)² == u² + v² − 2uv`.
proof fn lemma_square_diff(u: int, v: int)
    ensures
        (u - v) * (u - v) == u * u + v * v - 2 * (u * v),
{
    assert((u - v) * (u - v) == u * u + v * v - 2 * (u * v)) by (nonlinear_arith);
}

/// Lagrange's identity for three components.
proof fn lemma_lagrange(x0: int, x1: int, x2: int, y0: int, y1: int, y2: int)
    ensures
        (x0 * x0 + x1 * x1 + x2 * x2) * (y0 * y0 + y1 * y1 + y2 * y2) - (x0 * y0 + x1 * y1 + x2
            * y2) * (x0 * y0 + x1 * y1 + x2 * y2) == (x0 * y1 - x1 * y0) * (x0 * y1 - x1 * y0) + (x0
            * y2 - x2 * y0) * (x0 * y2 - x2 * y0) + (x1 * y2 - x2 * y1) * (x1 * y2 - x2 * y1),
{
    lemma_expand(x0 * x0, x1 * x1, x2 * x2, y0 * y0, y1 * y1, y2 * y2);
    lemma_expand(x0 * y0, x1 * y1, x2 * y2, x0 * y0, x1 * y1, x2 * y2);
    lemma_regroup(x0, y0, x0, y0);
    lemma_regroup(x0, y1, x1, y0);
    lemma_regroup(x0, y2, x2, y0);
    lemma_regroup(x1, y0, x0, y1);
    lemma_regroup(x1, y1, x1, y1);
    lemma_regroup(x1, y2, x2, y1);
    lemma_regroup(x2, y0, x0, y2);
    lemma_regroup(x2, y1, x1, y2);
    lemma_regroup(x2, y2, x2, y2);
    lemma_regroup(x0, y0, x1, y1);
    lemma_regroup(x0, y0, x2, y2);
    lemma_regroup(x1, y1, x2, y2);
    lemma_regroup(x1, y1, x0, y0);
    lemma_regroup(x2, y2, x0, y0);
    lemma_regroup(x2, y2, x1, y1);
    lemma_square_diff(x0 * y1, x1 * y0);
    lemma_square_diff(x0 * y2, x2 * y0);
    lemma_square_diff(x1 * y2, x2 * y1);
    assert((x1 * y0) * (x0 * y1) == (x0 * y1) * (x1 * y0)) by (nonlinear_arith);
    assert((x2 * y0) * (x0 * y2) == (x0 * y2) * (x2 * y0)) by (nonlinear_arith);
    assert((x2 * y1) * (x1 * y2) == (x1 * y2) * (x2 * y1)) by (nonlinear_arith);
}

/// One step of Cauchy–Schwarz: adding a pair of three-component vectors keeps
/// the squared inner product within the product of the squared norms.
proof fn lemma_cs_step(d: int, a: int, b: int, x0: int, x1: int, x2: int, y0: int, y1: int, y2: int)
    requires
        d * d <= a * b,
        a >= 0,
        b >= 0,
    ensures
        (d + (x0 * y0 + x1 * y1 + x2 * y2)) * (d + (x0 * y0 + x1 * y1 + x2 * y2)) <= (a + (x0 * x0
            + x1 * x1 + x2 * x2)) * (b + (y0 * y0 + y1 * y1 + y2 * y2)),
{
    let q = x0 * y0 + x1 * y1 + x2 * y2;
    let xx = x0 * x0 + x1 * x1 + x2 * x2;
    let yy = y0 * y0 + y1 * y1 + y2 * y2;
    let z0 = x0 * y1 - x1 * y0;
    let z1 = x0 * y2 - x2 * y0;
    let z2 = x1 * y2 - x2 * y1;
    lemma_lagrange(x0, x1, x2, y0, y1, y2);
    assert(z0 * z0 + z1 * z1 + z2 * z2 >= 0) by (nonlinear_arith);
    assert(xx >= 0 && yy >= 0) by (nonlinear_arith)
        requires
            xx == x0 * x0 + x1 * x1 + x2 * x2,
            yy == y0 * y0 + y1 * y1 + y2 * y2,
    ;
    let u = a * yy + b * xx;
    assert(u * u >= 4 * ((a * b) * (xx * yy))) by (nonlinear_arith)
        requires
            u == a * yy + b * xx,
    {
        assert((a * yy - b * xx) * (a * yy - b * xx) >= 0);
    }
    assert(d * d >= 0 && q * q >= 0) by (nonlinear_arith);
    assert((a * b) * (xx * yy) >= (d * d) * (q * q)) by (nonlinear_arith)
        requires
            0 <= d * d <= a * b,
            0 <= q * q <= xx * yy,
    ;
    assert(u >= 0) by (nonlinear_arith)
        requires
            u == a * yy + b * xx,
            a >= 0,
            b >= 0,
            xx >= 0,
            yy >= 0,
    ;
    assert(u >= 2 * d * q) by (nonlinear_arith)
        requires
            u >= 0,
            u * u >= 4 * ((d * d) * (q * q)),
    ;
    assert((d + q) * (d + q) <= (a + xx) * (b + yy)) by (nonlinear_arith)
        requires
            d * d <= a * b,
            q * q <= xx * yy,
            2 * d * q <= a * yy + b * xx,
    ;
}

/// Cauchy–Schwarz over the centred vectors of the first `n` samples.
proof fn lemma_cs(
    a: Seq<Label>,
    ma: (int, int, int),
    b: Seq<Label>,
    mb: (int, int, int),
    s: int,
    n: nat,
)
    requires
        n <= a.len(),
        n <= b.len(),
    ensures
        centred_sum(a, ma, a, ma, s, n) >= 0,
        centred_sum(b, mb, b, mb, s, n) >= 0,
        centred_sum(a, ma, b, mb, s, n) * centred_sum(a, ma, b, mb, s, n) <= centred_sum(
            a,
            ma,
            a,
            ma,
            s,
            n,
        ) * centred_sum(b, mb, b, mb, s, n),
    decreases n,
{
    if n > 0 {
        let k = (n - 1) as nat;
        lemma_cs(a, ma, b, mb, s, k);
        let l1 = a[k as int];
        let l2 = b[k as int];
        let x0 = centred(l1, Label::Fail, ma, s);
        let x1 = centred(l1, Label::Half, ma, s);
        let x2 = centred(l1, Label::Pass, ma, s);
        let y0 = centred(l2, Label::Fail, mb, s);
        let y1 = centred(l2, Label::Half, mb, s);
        let y2 = centred(l2, Label::Pass, mb, s);
        lemma_cs_step(
            centred_sum(a, ma, b, mb, s, k),
            centred_sum(a, ma, a, ma, s, k),
            centred_sum(b, mb, b, mb, s, k),
            x0,
            x1,
            x2,
            y0,
            y1,
            y2,
        );
        assert(x0 * x0 + x1 * x1 + x2 * x2 >= 0) by (nonlinear_arith);
        assert(y0 * y0 + y1 * y1 + y2 * y2 >= 0) by (nonlinear_arith);
    }
}

/// Samples among the first `n` whose classes in `a` and `b` agree.
pub open spec fn agree_count(a: Seq<Label>, b: Seq<Label>, n: nat) -> nat
    decreases n,
{
    if n == 0 {
        0
    } else {
        agree_count(a, b, (n - 1) as nat) + if a[n - 1] == b[n - 1] {
            1nat
        } else {
            0nat
        }
    }
}

/// Sum over the first `n` samples of `a` of the total of each sample's class.
pub open spec fn margin_sum(m: (int, int, int), a: Seq<Label>, n: nat) -> int
    decreases n,
{
    if n == 0 {
        0
    } else {
        margin_sum(m, a, (n - 1) as nat) + margin(m, a[n - 1])
    }
}

/// Sum over the classes of the products of two sets of totals.
pub open spec fn margin_dot(m1: (int, int, int), m2: (int, int, int)) -> int {
    m1.0 * m2.0 + m1.1 * m2.1 + m1.2 * m2.2
}

/// The four shapes a product of two centred components can take.
proof fn lemma_term(s: int, a: int, b: int)
    ensures
        (s - a) * (s - b) == s * s - s * b - s * a + a * b,
        (s - a) * (0 - b) == 0 - s * b + a * b,
        (0 - a) * (s - b) == 0 - s * a + a * b,
        (0 - a) * (0 - b) == a * b,
{
    assert((s - a) * (s - b) == s * s - s * b - s * a + a * b) by (nonlinear_arith);
    assert((s - a) * (0 - b) == 0 - s * b + a * b) by (nonlinear_arith);
    assert((0 - a) * (s - b) == 0 - s * a + a * b) by (nonlinear_arith);
    assert((0 - a) * (0 - b) == a * b) by (nonlinear_arith);
}

/// The inner product of two centred vectors, in terms of the two classes.
proof fn lemma_centred_dot(l1: Label, m1: (int, int, int), l2: Label, m2: (int, int, int), s: int)
    ensures
        centred_dot(l1, m1, l2, m2, s) == (if l1 == l2 {
            s * s
        } else {
            0
        }) - s * margin(m2, l1) - s * margin(m1, l2) + margin_dot(m1, m2),
{
    lemma_term(s, m1.0, m2.0);
    lemma_term(s, m1.1, m2.1);
    lemma_term(s, m1.2, m2.2);
}

/// The sum of inner products over the first `n` samples, in closed form.
proof fn lemma_centred_sum(
    a: Seq<Label>,
    ma: (int, int, int),
    b: Seq<Label>,
    mb: (int, int, int),
    s: int,
    n: nat,
)
    requires
        n <= a.len(),
        n <= b.len(),
    ensures
        centred_sum(a, ma, b, mb, s, n) == (s * s) * agree_count(a, b, n) - s * margin_sum(mb, a, n)
            - s * margin_sum(ma, b, n) + n * margin_dot(ma, mb),
    decreases n,
{
    if n > 0 {
        let k = (n - 1) as nat;
        lemma_centred_sum(a, ma, b, mb, s, k);
        lemma_centred_dot(a[k as int], ma, b[k as int], mb, s);
        assert(centred_sum(a, ma, b, mb, s, n) == centred_sum(a, ma, b, mb, s, k) + centred_dot(
            a[k as int],
            ma,
            b[k as int],
            mb,
            s,
        ));
        let e: int = if a[k as int] == b[k as int] {
            1
        } else {
            0
        };
        let g = agree_count(a, b, k) as int;
        let ss = s * s;
        assert(agree_count(a, b, n) == g + e);
        assert(ss * agree_count(a, b, n) == ss * g + ss * e) by (nonlinear_arith)
            requires
                agree_count(a, b, n) == g + e,
        ;
        assert(ss * e == if a[k as int] == b[k as int] {
            ss
        } else {
            0
        }) by (nonlinear_arith)
            requires
                e == if a[k as int] == b[k as int] {
                    1int
                } else {
                    0int
                },
        ;
        let wa = margin_sum(mb, a, k);
        let wb = margin_sum(ma, b, k);
        assert(s * margin_sum(mb, a, n) == s * wa + s * margin(mb, a[k as int])) by (nonlinear_arith)
            requires
                margin_sum(mb, a, n) == wa + margin(mb, a[k as int]),
        ;
        assert(s * margin_sum(ma, b, n) == s * wb + s * margin(ma, b[k as int])) by (nonlinear_arith)
            requires
                margin_sum(ma, b, n) == wb + margin(ma, b[k as int]),
        ;
        let md = margin_dot(ma, mb);
        assert(n * md == k * md + md) by (nonlinear_arith)
            requires
                n == k + 1,
        ;
    } else {
        let g = agree_count(a, b, n) as int;
        let wa = margin_sum(mb, a, n);
        let wb = margin_sum(ma, b, n);
        let md = margin_dot(ma, mb);
        assert((s * s) * g - s * wa - s * wb + n * md == 0) by (nonlinear_arith)
            requires
                g == 0 && wa == 0 && wb == 0 && n == 0,
        ;
    }
}

/// The totals of the classes of `a`, summed over its first `n` samples, in
/// terms of how many of them fall in each class.
proof fn lemma_margin_sum(m: (int, int, int), a: Seq<Label>, n: nat)
    requires
        n <= a.len(),
    ensures
        margin_sum(m, a, n) == m.0 * class_count(a, Label::Fail, n) + m.1 * class_count(
            a,
            Label::Half,
            n,
        ) + m.2 * class_count(a, Label::Pass, n),
    decreases n,
{
    if n > 0 {
        let k = (n - 1) as nat;
        lemma_margin_sum(m, a, k);
        assert(margin_sum(m, a, n) == margin_sum(m, a, k) + margin(m, a[k as int]));
        let c0 = class_count(a, Label::Fail, k) as int;
        let c1 = class_count(a, Label::Half, k) as int;
        let c2 = class_count(a, Label::Pass, k) as int;
        let d0: int = if a[k as int] == Label::Fail { 1 } else { 0 };
        let d1: int = if a[k as int] == Label::Half { 1 } else { 0 };
        let d2: int = if a[k as int] == Label::Pass { 1 } else { 0 };
        assert(m.0 * class_count(a, Label::Fail, n) == m.0 * c0 + m.0 * d0) by (nonlinear_arith)
            requires
                class_count(a, Label::Fail, n) == c0 + d0,
        ;
        assert(m.1 * class_count(a, Label::Half, n) == m.1 * c1 + m.1 * d1) by (nonlinear_arith)
            requires
                class_count(a, Label::Half, n) == c1 + d1,
        ;
        assert(m.2 * class_count(a, Label::Pass, n) == m.2 * c2 + m.2 * d2) by (nonlinear_arith)
            requires
                class_count(a, Label::Pass, n) == c2 + d2,
        ;
        assert(margin(m, a[k as int]) == m.0 * d0 + m.1 * d1 + m.2 * d2) by (nonlinear_arith)
            requires
                d0 == 0 || d0 == 1,
                d1 == 0 || d1 == 1,
                d2 == 0 || d2 == 1,
                d0 + d1 + d2 == 1,
                d0 == 1 ==> margin(m, a[k as int]) == m.0,
                d1 == 1 ==> margin(m, a[k as int]) == m.1,
                d2 == 1 ==> margin(m, a[k as int]) == m.2,
        ;
    } else {
        let c0 = class_count(a, Label::Fail, n) as int;
        let c1 = class_count(a, Label::Half, n) as int;
        let c2 = class_count(a, Label::Pass, n) as int;
        assert(m.0 * c0 + m.1 * c1 + m.2 * c2 == 0) by (nonlinear_arith)
            requires
                c0 == 0 && c1 == 0 && c2 == 0,
        ;
    }
}

/// Agreeing samples are the diagonal pairs.
proof fn lemma_agree_count(pred: Seq<Label>, truth: Seq<Label>, n: nat)
    requires
        n <= pred.len(),
        n <= truth.len(),
    ensures
        agree_count(truth, pred, n) == pair_count(pred, truth, Label::Fail, Label::Fail, n)
            + pair_count(pred, truth, Label::Half, Label::Half, n) + pair_count(
            pred,
            truth,
            Label::Pass,
            Label::Pass,
            n,
        ),
    decreases n,
{
    if n > 0 {
        lemma_agree_count(pred, truth, (n - 1) as nat);
    }
}

/// Every sample agrees with itself.
proof fn lemma_agree_self(a: Seq<Label>, n: nat)
    requires
        n <= a.len(),
    ensures
        agree_count(a, a, n) == n,
    decreases n,
{
    if n > 0 {
        lemma_agree_self(a, (n - 1) as nat);
    }
}

/// A common positive factor cancels from both sides of a bound on squares.
proof fn lemma_cancel_factor(s: int, x: int, a: int, b: int)
    requires
        s > 0,
        (s * x) * (s * x) <= (s * a) * (s * b),
    ensures
        x * x <= a * b,
{
    assert((s * x) * (s * x) == (s * s) * (x * x)) by (nonlinear_arith);
    assert((s * a) * (s * b) == (s * s) * (a * b)) by (nonlinear_arith);
    assert(s * s > 0) by (nonlinear_arith)
        requires
            s > 0,
    ;
    assert(x * x <= a * b) by (nonlinear_arith)
        requires
            s * s > 0,
            (s * s) * (x * x) <= (s * s) * (a * b),
    ;
}

/// A positive factor keeps the sign of what it multiplies.
proof fn lemma_positive_factor(s: int, x: int)
    requires
        s > 0,
        s * x >= 0,
    ensures
        x >= 0,
{
    assert(x >= 0) by (nonlinear_arith)
        requires
            s > 0,
            s * x >= 0,
    ;
}

/// Of a matrix that counts the pairs of `pred` and `truth`, the Matthews
/// correlation coefficient lies within −1 and 1: the square of its numerator
/// `trace · total − Σ row_sum · col_sum` is at most the product of the two
/// spreads under its square root, and both spreads are non-negative.
pub proof fn lemma_mcc_within_unit(cm: ConfusionMatrix, pred: Seq<Label>, truth: Seq<Label>)
    requires
        cm.counts_of(pred, truth),
    ensures
        cm.pred_spread_spec() >= 0,
        cm.true_spread_spec() >= 0,
        (cm.trace_spec() * cm.total_spec() - cm.marginal_products()) * (cm.trace_spec()
            * cm.total_spec() - cm.marginal_products()) <= cm.pred_spread_spec()
            * cm.true_spread_spec(),
{
    lemma_sums_equal_total(cm, pred, truth);
    let n = truth.len();
    let s = cm.total_spec() as int;
    let c = cm.trace_spec() as int;
    let t = (
        cm.row_sum(Label::Fail) as int,
        cm.row_sum(Label::Half) as int,
        cm.row_sum(Label::Pass) as int,
    );
    let p = (
        cm.col_sum(Label::Fail) as int,
        cm.col_sum(Label::Half) as int,
        cm.col_sum(Label::Pass) as int,
    );
    let qt = margin_dot(t, t);
    let qp = margin_dot(p, p);
    let x = margin_dot(t, p);

    lemma_agree_count(pred, truth, n);
    lemma_agree_self(truth, n);
    lemma_agree_self(pred, n);
    lemma_margin_sum(t, truth, n);
    lemma_margin_sum(p, pred, n);
    lemma_margin_sum(p, truth, n);
    lemma_margin_sum(t, pred, n);
    assert(margin_sum(p, truth, n) == x) by (nonlinear_arith)
        requires
            margin_sum(p, truth, n) == p.0 * t.0 + p.1 * t.1 + p.2 * t.2,
            x == t.0 * p.0 + t.1 * p.1 + t.2 * p.2,
    ;

    lemma_centred_sum(truth, t, truth, t, s, n);
    lemma_centred_sum(pred, p, pred, p, s, n);
    lemma_centred_sum(truth, t, pred, p, s, n);
    lemma_cs(truth, t, pred, p, s, n);

    let aa = centred_sum(truth, t, truth, t, s, n);
    let bb = centred_sum(pred, p, pred, p, s, n);
    let dd = centred_sum(truth, t, pred, p, s, n);
    assert(aa == s * (s * s - qt)) by (nonlinear_arith)
        requires
            aa == (s * s) * s - s * qt - s * qt + s * qt,
    ;
    assert(bb == s * (s * s - qp)) by (nonlinear_arith)
        requires
            bb == (s * s) * s - s * qp - s * qp + s * qp,
    ;
    assert(dd == s * (c * s - x)) by (nonlinear_arith)
        requires
            dd == (s * s) * c - s * x - s * x + s * x,
    ;
    lemma_cancel_factor(s, c * s - x, s * s - qp, s * s - qt);
    lemma_positive_factor(s, s * s - qt);
    lemma_positive_factor(s, s * s - qp);
}

} // verus!
