//! Lagrange interpolation over a field.
use vstd::arithmetic::mul::lemma_mul_is_distributive_add;
use vstd::prelude::*;

use crate::group::Field;
use crate::lagrange::{denominator, lagrange, lemma_distinct, lemma_nonzero_product, numerator};
use crate::residue::{
    congruent, lemma_congruent_add, lemma_congruent_mul, lemma_congruent_sub, lemma_in_range,
    lemma_residue,
};

verus! {

/// The polynomial with the coefficients `c`, lowest first, at `x`.
pub open spec fn polynomial(c: Seq<int>, x: int) -> int
    decreases c.len(),
{
    if c.len() == 0 {
        0
    } else {
        c[0] + x * polynomial(c.drop_first(), x)
    }
}

/// The sum of the values of `h` at the points `xs`.
pub open spec fn sum_over(h: spec_fn(int) -> int, xs: Seq<int>) -> int
    decreases xs.len(),
{
    if xs.len() == 0 {
        0
    } else {
        sum_over(h, xs.drop_last()) + h(xs.last())
    }
}

/// Distinct residues.
pub open spec fn are_points<F: Field>(xs: Seq<int>) -> bool {
    &&& forall|i: int| 0 <= i < xs.len() ==> 0 <= #[trigger] xs[i] < F::order()
    &&& forall|i: int, j: int|
        0 <= i < j < xs.len() ==> #[trigger] xs[i] != #[trigger] xs[j]
}

/// The inverse of the product of the differences between `x` and the other
/// points.
spec fn weight<F: Field>(xs: Seq<int>, x: int) -> int {
    F::inverse(denominator(xs, x) % F::order())
}

proof fn lemma_points_remove<F: Field>(xs: Seq<int>, k: int)
    requires
        are_points::<F>(xs),
        0 <= k < xs.len(),
    ensures
        are_points::<F>(xs.remove(k)),
        !xs.remove(k).contains(xs[k]),
        forall|x: int| #[trigger] xs.remove(k).contains(x) ==> xs.contains(x) && x != xs[k],
{
    let ys = xs.remove(k);
    let at = |i: int|
        if i < k {
            i
        } else {
            i + 1
        };
    assert forall|i: int| 0 <= i < ys.len() implies #[trigger] ys[i] == xs[at(i)] by {}
    assert forall|i: int, j: int| 0 <= i < j < ys.len() implies #[trigger] ys[i]
        != #[trigger] ys[j] by {
        assert(xs[at(i)] != xs[at(j)]);
    }
    assert forall|x: int| #[trigger] ys.contains(x) implies xs.contains(x) && x != xs[k] by {
        let i = choose|i: int| 0 <= i < ys.len() && ys[i] == x;
        assert(xs[at(i)] == x);
        if at(i) < k {
            assert(xs[at(i)] != xs[k]);
        } else {
            assert(xs[k] != xs[at(i)]);
        }
    }
}

proof fn lemma_denominator_remove(xs: Seq<int>, k: int, x: int)
    requires
        0 <= k < xs.len(),
        xs[k] != x,
    ensures
        denominator(xs, x) == denominator(xs.remove(k), x) * (xs[k] - x),
    decreases xs.len(),
{
    let ys = xs.remove(k);
    if k == xs.len() - 1 {
        assert(ys =~= xs.drop_last());
    } else {
        assert(ys.drop_last() =~= xs.drop_last().remove(k));
        assert(ys.last() == xs.last());
        lemma_denominator_remove(xs.drop_last(), k, x);
        if xs.last() != x {
            let d = denominator(ys.drop_last(), x);
            let (g, h) = (xs[k] - x, xs.last() - x);
            assert(d * g * h == d * h * g) by (nonlinear_arith);
        }
    }
}

proof fn lemma_denominator_nonzero<F: Field>(xs: Seq<int>, x: int)
    requires
        forall|i: int| 0 <= i < xs.len() ==> 0 <= #[trigger] xs[i] < F::order(),
        0 <= x < F::order(),
    ensures
        denominator(xs, x) % F::order() != 0,
    decreases xs.len(),
{
    F::lemma_order();
    if xs.len() == 0 {
        lemma_in_range(1, F::order());
    } else {
        lemma_denominator_nonzero::<F>(xs.drop_last(), x);
        if xs.last() != x {
            lemma_distinct::<F>(xs.last(), x);
            lemma_nonzero_product::<F>(denominator(xs.drop_last(), x), xs.last() - x);
        }
    }
}

/// What equal nonzero multiples are multiples of is equal.
proof fn lemma_cancel<F: Field>(d: int, a: int, b: int)
    requires
        d % F::order() != 0,
        congruent(d * a, d * b, F::order()),
    ensures
        congruent(a, b, F::order()),
{
    let m = F::order();
    F::lemma_order();
    lemma_congruent_sub(d * a, d * b, d * b, d * b, m);
    assert(d * a - d * b == d * (a - b)) by (nonlinear_arith);
    lemma_in_range(0, m);
    if (a - b) % m != 0 {
        lemma_nonzero_product::<F>(d, a - b);
    }
    lemma_congruent_add(a - b, 0, b, b, m);
}

/// A weight times the product it is the inverse of is one.
proof fn lemma_weight<F: Field>(xs: Seq<int>, x: int)
    requires
        forall|i: int| 0 <= i < xs.len() ==> 0 <= #[trigger] xs[i] < F::order(),
        0 <= x < F::order(),
    ensures
        congruent(denominator(xs, x) * weight::<F>(xs, x), 1, F::order()),
{
    let m = F::order();
    let d = denominator(xs, x);
    F::lemma_order();
    lemma_denominator_nonzero::<F>(xs, x);
    lemma_residue(d, m);
    F::lemma_inverse(d % m);
    lemma_in_range(1, m);
    lemma_congruent_mul(d % m, d, weight::<F>(xs, x), weight::<F>(xs, x), m);
}

proof fn lemma_sum_remove(h: spec_fn(int) -> int, xs: Seq<int>, k: int)
    requires
        0 <= k < xs.len(),
    ensures
        sum_over(h, xs) == sum_over(h, xs.remove(k)) + h(xs[k]),
    decreases xs.len(),
{
    let ys = xs.remove(k);
    if k == xs.len() - 1 {
        assert(ys =~= xs.drop_last());
    } else {
        assert(ys.drop_last() =~= xs.drop_last().remove(k));
        assert(ys.last() == xs.last());
        lemma_sum_remove(h, xs.drop_last(), k);
    }
}

proof fn lemma_sum_congruent(
    g: spec_fn(int) -> int,
    h: spec_fn(int) -> int,
    xs: Seq<int>,
    m: int,
)
    requires
        m > 1,
        forall|i: int| 0 <= i < xs.len() ==> congruent(g(#[trigger] xs[i]), h(xs[i]), m),
    ensures
        congruent(sum_over(g, xs), sum_over(h, xs), m),
    decreases xs.len(),
{
    if xs.len() > 0 {
        let ys = xs.drop_last();
        assert forall|i: int| 0 <= i < ys.len() implies congruent(
            g(#[trigger] ys[i]),
            h(ys[i]),
            m,
        ) by {
            assert(ys[i] == xs[i]);
        }
        lemma_sum_congruent(g, h, ys, m);
        lemma_congruent_add(sum_over(g, ys), sum_over(h, ys), g(xs.last()), h(xs.last()), m);
    }
}

/// A sum of linear combinations is the combination of the sums.
proof fn lemma_sum_linear(
    a: int,
    g: spec_fn(int) -> int,
    b: int,
    h: spec_fn(int) -> int,
    xs: Seq<int>,
)
    ensures
        sum_over(|x: int| a * g(x) + b * h(x), xs) == a * sum_over(g, xs) + b * sum_over(h, xs),
    decreases xs.len(),
{
    if xs.len() > 0 {
        let ys = xs.drop_last();
        lemma_sum_linear(a, g, b, h, ys);
        let (gs, hs) = (sum_over(g, ys), sum_over(h, ys));
        let (gx, hx) = (g(xs.last()), h(xs.last()));
        lemma_mul_is_distributive_add(a, gs, gx);
        lemma_mul_is_distributive_add(b, hs, hx);
    } else {
        assert(a * 0 + b * 0 == 0) by (nonlinear_arith);
    }
}

/// Multiplying by the distance to one of the points takes that point out.
proof fn lemma_take_out<F: Field>(g: spec_fn(int) -> int, xs: Seq<int>, k: int)
    requires
        are_points::<F>(xs),
        0 <= k < xs.len(),
    ensures
        congruent(
            sum_over(|x: int| (x - xs[k]) * g(x) * weight::<F>(xs, x), xs),
            -sum_over(|x: int| g(x) * weight::<F>(xs.remove(k), x), xs.remove(k)),
            F::order(),
        ),
{
    let m = F::order();
    let a = xs[k];
    let ys = xs.remove(k);
    let h = |x: int| (x - a) * g(x) * weight::<F>(xs, x);
    let r = |x: int| g(x) * weight::<F>(ys, x);
    let minus = |x: int| -1 * r(x) + 0 * r(x);
    F::lemma_order();
    lemma_points_remove::<F>(xs, k);
    lemma_sum_remove(h, xs, k);
    assert(h(a) == 0) by (nonlinear_arith)
        requires
            h(a) == (a - a) * g(a) * weight::<F>(xs, a),
    ;
    assert forall|i: int| 0 <= i < ys.len() implies congruent(
        h(#[trigger] ys[i]),
        minus(ys[i]),
        m,
    ) by {
        let x = ys[i];
        assert(ys.contains(x));
        assert(xs.contains(x) && x != a);
        let (w, v) = (weight::<F>(xs, x), weight::<F>(ys, x));
        let (d, e) = (denominator(xs, x), denominator(ys, x));
        lemma_denominator_remove(xs, k, x);
        lemma_weight::<F>(xs, x);
        lemma_weight::<F>(ys, x);
        lemma_denominator_nonzero::<F>(ys, x);
        // e * ((x - a) * w) == -(d * w) == -1 == e * -v
        lemma_congruent_mul(-1, -1, d * w, 1, m);
        lemma_congruent_mul(-1, -1, e * v, 1, m);
        assert(e * ((x - a) * w) == e * (x - a) * w) by (nonlinear_arith);
        assert(e * (x - a) == -(e * (a - x))) by (nonlinear_arith);
        assert(-d * w == -1 * (d * w)) by (nonlinear_arith);
        assert(e * (-1 * v) == -1 * (e * v)) by (nonlinear_arith);
        lemma_cancel::<F>(e, (x - a) * w, -1 * v);
        lemma_congruent_mul(g(x), g(x), (x - a) * w, -1 * v, m);
        assert((x - a) * g(x) * w == g(x) * ((x - a) * w)) by (nonlinear_arith);
        assert(-1 * (g(x) * v) + 0 * (g(x) * v) == g(x) * (-1 * v)) by (nonlinear_arith);
    }
    lemma_sum_congruent(h, minus, ys, m);
    lemma_sum_linear(-1, r, 0, r, ys);
    assert(sum_over(minus, ys) == -sum_over(r, ys)) by {
        assert(minus =~= (|x: int| -1 * r(x) + 0 * r(x)));
        assert(-1 * sum_over(r, ys) + 0 * sum_over(r, ys) == -sum_over(r, ys)) by (nonlinear_arith);
    }
}

/// The weights of two points or more add up to nothing.
proof fn lemma_weights_vanish<F: Field>(xs: Seq<int>)
    requires
        are_points::<F>(xs),
        xs.len() >= 2,
    ensures
        congruent(sum_over(|x: int| weight::<F>(xs, x), xs), 0, F::order()),
    decreases xs.len(),
{
    let m = F::order();
    let n = xs.len() as int;
    let (a, b) = (xs[0], xs[n - 1]);
    let w = |x: int| weight::<F>(xs, x);
    let one = |x: int| 1int;
    let total = sum_over(w, xs);
    F::lemma_order();
    lemma_in_range(0, m);
    lemma_points_remove::<F>(xs, 0);
    lemma_points_remove::<F>(xs, n - 1);
    let without_a = xs.remove(0);
    let without_b = xs.remove(n - 1);
    let from_a = |x: int| (x - a) * one(x) * weight::<F>(xs, x);
    let from_b = |x: int| (x - b) * one(x) * weight::<F>(xs, x);
    let rest_a = |x: int| one(x) * weight::<F>(without_a, x);
    let rest_b = |x: int| one(x) * weight::<F>(without_b, x);
    lemma_take_out::<F>(one, xs, 0);
    lemma_take_out::<F>(one, xs, n - 1);
    assert(congruent(sum_over(from_a, xs), -sum_over(rest_a, without_a), m));
    assert(congruent(sum_over(from_b, xs), -sum_over(rest_b, without_b), m));
    let plain_a = |x: int| weight::<F>(without_a, x);
    assert forall|x: int| #[trigger] rest_a(x) == plain_a(x) by {
        let v = weight::<F>(without_a, x);
        assert(one(x) * v == v) by (nonlinear_arith)
            requires
                one(x) == 1,
        ;
    }
    assert(rest_a =~= plain_a);
    let plain_b = |x: int| weight::<F>(without_b, x);
    assert forall|x: int| #[trigger] rest_b(x) == plain_b(x) by {
        let v = weight::<F>(without_b, x);
        assert(one(x) * v == v) by (nonlinear_arith)
            requires
                one(x) == 1,
        ;
    }
    assert(rest_b =~= plain_b);
    assert(congruent(sum_over(rest_a, without_a), sum_over(rest_b, without_b), m)) by {
        if n == 2 {
            assert(without_a =~= seq![b]);
            assert(without_b =~= seq![a]);
            reveal_with_fuel(sum_over, 2);
            reveal_with_fuel(denominator, 2);
            assert(seq![b].drop_last() =~= Seq::<int>::empty());
            assert(seq![a].drop_last() =~= Seq::<int>::empty());
            assert(denominator(without_a, b) == 1);
            assert(denominator(without_b, a) == 1);
        } else {
            lemma_weights_vanish::<F>(without_a);
            lemma_weights_vanish::<F>(without_b);
        }
    }
    // (b - a) * total is the difference of the two sums, which is nothing.
    lemma_congruent_sub(
        sum_over(from_a, xs),
        -sum_over(rest_a, without_a),
        sum_over(from_b, xs),
        -sum_over(rest_b, without_b),
        m,
    );
    lemma_congruent_sub(
        sum_over(rest_b, without_b),
        sum_over(rest_a, without_a),
        sum_over(rest_a, without_a),
        sum_over(rest_a, without_a),
        m,
    );
    lemma_sum_linear(1, from_a, -1, from_b, xs);
    lemma_sum_linear(b - a, w, 0, w, xs);
    let lhs = |x: int| 1 * from_a(x) + (-1) * from_b(x);
    let rhs = |x: int| (b - a) * w(x) + 0 * w(x);
    assert forall|x: int| #[trigger] lhs(x) == rhs(x) by {
        let v = weight::<F>(xs, x);
        assert(1 * ((x - a) * 1 * v) + (-1) * ((x - b) * 1 * v) == (b - a) * v + 0 * v)
            by (nonlinear_arith);
    }
    assert(lhs =~= rhs);
    assert(0 * total == 0) by (nonlinear_arith);
    assert(congruent((b - a) * total, 0, m));
    assert((b - a) * 0 == 0) by (nonlinear_arith);
    lemma_distinct::<F>(b, a);
    lemma_cancel::<F>(b - a, total, 0);
}

/// Weighted by the weights of more points than it has coefficients, a
/// polynomial adds up to nothing.
proof fn lemma_polynomial_vanishes<F: Field>(c: Seq<int>, xs: Seq<int>)
    requires
        are_points::<F>(xs),
        c.len() < xs.len(),
    ensures
        congruent(
            sum_over(|x: int| polynomial(c, x) * weight::<F>(xs, x), xs),
            0,
            F::order(),
        ),
    decreases c.len(),
{
    let m = F::order();
    let f = |x: int| polynomial(c, x) * weight::<F>(xs, x);
    let w = |x: int| weight::<F>(xs, x);
    F::lemma_order();
    lemma_in_range(0, m);
    if c.len() == 0 {
        lemma_sum_linear(0, w, 0, w, xs);
        let none = |x: int| 0 * w(x) + 0 * w(x);
        assert forall|x: int| #[trigger] f(x) == none(x) by {
            assert(0 * w(x) + 0 * w(x) == 0 * w(x)) by (nonlinear_arith);
        }
        assert(f =~= none);
        assert(0 * sum_over(w, xs) + 0 * sum_over(w, xs) == 0) by (nonlinear_arith);
    } else {
        let rest = c.drop_first();
        let a = xs[0];
        let ys = xs.remove(0);
        let g = |x: int| polynomial(rest, x);
        let gw = |x: int| g(x) * weight::<F>(xs, x);
        let shifted = |x: int| (x - a) * g(x) * weight::<F>(xs, x);
        let kept = |x: int| g(x) * weight::<F>(ys, x);
        lemma_points_remove::<F>(xs, 0);
        lemma_weights_vanish::<F>(xs);
        lemma_polynomial_vanishes::<F>(rest, xs);
        lemma_polynomial_vanishes::<F>(rest, ys);
        lemma_take_out::<F>(g, xs, 0);
        assert(gw =~= (|x: int| polynomial(rest, x) * weight::<F>(xs, x)));
        assert(kept =~= (|x: int| polynomial(rest, x) * weight::<F>(ys, x)));
        assert(congruent(sum_over(shifted, xs), -sum_over(kept, ys), m));
        lemma_congruent_sub(0, 0, sum_over(kept, ys), 0, m);
        // f == c[0] * w + shifted + a * gw
        let low = |x: int| c[0] * w(x) + 1 * shifted(x);
        let split = |x: int| 1 * low(x) + a * gw(x);
        lemma_sum_linear(c[0], w, 1, shifted, xs);
        lemma_sum_linear(1, low, a, gw, xs);
        assert forall|x: int| #[trigger] f(x) == split(x) by {
            let (v, p, k) = (weight::<F>(xs, x), polynomial(rest, x), c[0]);
            assert((k + x * p) * v == k * v + x * p * v) by (nonlinear_arith);
            assert((x - a) * p * v == x * p * v - a * p * v) by (nonlinear_arith);
            assert(a * (p * v) == a * p * v) by (nonlinear_arith);
        }
        assert(f =~= split);
        let (ws, ss, gs) = (sum_over(w, xs), sum_over(shifted, xs), sum_over(gw, xs));
        lemma_congruent_mul(c[0], c[0], ws, 0, m);
        lemma_congruent_mul(a, a, gs, 0, m);
        assert(c[0] * 0 == 0 && a * 0 == 0) by (nonlinear_arith);
        lemma_congruent_add(c[0] * ws, 0, ss, 0, m);
        lemma_congruent_add(c[0] * ws + ss, 0, a * gs, 0, m);
        assert(sum_over(f, xs) == c[0] * ws + ss + a * gs);
    }
}

/// The product of all points is the point `x` times the product of the others.
proof fn lemma_numerator(xs: Seq<int>, k: int)
    requires
        0 <= k < xs.len(),
        forall|i: int| 0 <= i < xs.len() ==> #[trigger] xs[i] != 0,
        forall|i: int, j: int| 0 <= i < j < xs.len() ==> #[trigger] xs[i] != #[trigger] xs[j],
    ensures
        denominator(xs, 0) == numerator(xs, xs[k]) * xs[k],
    decreases xs.len(),
{
    let x = xs[k];
    if k == xs.len() - 1 {
        lemma_all_factors(xs.drop_last(), x);
    } else {
        assert(xs[k] != xs.last());
        lemma_numerator(xs.drop_last(), k);
        let (n, y) = (numerator(xs.drop_last(), x), xs.last());
        assert(n * x * (y - 0) == n * y * x) by (nonlinear_arith);
    }
}

proof fn lemma_all_factors(xs: Seq<int>, x: int)
    requires
        forall|i: int| 0 <= i < xs.len() ==> #[trigger] xs[i] != 0 && xs[i] != x,
    ensures
        denominator(xs, 0) == numerator(xs, x),
    decreases xs.len(),
{
    if xs.len() > 0 {
        lemma_all_factors(xs.drop_last(), x);
    }
}

/// Lagrange interpolation: the values at distinct nonzero points of a polynomial
/// with no more coefficients than there are points, weighted by the Lagrange
/// coefficients of the points, add up to its value at zero.
pub proof fn law_interpolation<F: Field>(c: Seq<int>, xs: Seq<int>)
    requires
        are_points::<F>(xs),
        forall|i: int| 0 <= i < xs.len() ==> #[trigger] xs[i] != 0,
        c.len() <= xs.len(),
    ensures
        congruent(
            sum_over(|x: int| lagrange::<F>(xs, x) * polynomial(c, x), xs),
            polynomial(c, 0),
            F::order(),
        ),
{
    let m = F::order();
    let ys = xs.push(0);
    let all = denominator(xs, 0);
    let f = |x: int| polynomial(c, x) * weight::<F>(ys, x);
    let l = |x: int| lagrange::<F>(xs, x) * polynomial(c, x);
    let scaled = |x: int| all * f(x) + 0 * f(x);
    let minus = |x: int| -1 * l(x) + 0 * l(x);
    let p0 = polynomial(c, 0);
    F::lemma_order();
    lemma_in_range(0, m);
    assert(are_points::<F>(ys)) by {
        assert forall|i: int, j: int| 0 <= i < j < ys.len() implies #[trigger] ys[i]
            != #[trigger] ys[j] by {
            assert(ys[i] == xs[i]);
            if j < xs.len() {
                assert(xs[i] != xs[j]);
            }
        }
    }
    lemma_polynomial_vanishes::<F>(c, ys);
    assert(ys.drop_last() =~= xs);
    assert(sum_over(f, ys) == sum_over(f, xs) + f(0));
    assert(denominator(ys, 0) == all);
    lemma_weight::<F>(ys, 0);
    // all * f(0) is the value at zero
    let w0 = weight::<F>(ys, 0);
    lemma_congruent_mul(all * w0, 1, p0, p0, m);
    assert(all * (p0 * w0) == all * w0 * p0) by (nonlinear_arith);
    // all * f(x) is the opposite of the term of x
    assert forall|i: int| 0 <= i < xs.len() implies congruent(
        scaled(#[trigger] xs[i]),
        minus(xs[i]),
        m,
    ) by {
        let x = xs[i];
        lemma_scaled_weight::<F>(xs, i);
        let (w, p) = (weight::<F>(ys, x), polynomial(c, x));
        let lam = lagrange::<F>(xs, x);
        lemma_congruent_mul(all * w, -lam, p, p, m);
        assert(all * (p * w) + 0 * (p * w) == all * w * p) by (nonlinear_arith);
        assert(-1 * (lam * p) + 0 * (lam * p) == -lam * p) by (nonlinear_arith);
    }
    lemma_sum_congruent(scaled, minus, xs, m);
    lemma_sum_linear(all, f, 0, f, xs);
    lemma_sum_linear(-1, l, 0, l, xs);
    let (fs, ls) = (sum_over(f, xs), sum_over(l, xs));
    assert(all * fs + 0 * fs == all * fs) by (nonlinear_arith);
    assert(-1 * ls + 0 * ls == -ls) by (nonlinear_arith);
    assert(congruent(all * fs, -ls, m));
    lemma_congruent_mul(all, all, fs + f(0), 0, m);
    assert(all * (fs + f(0)) == all * fs + all * f(0)) by (nonlinear_arith);
    assert(all * 0 == 0) by (nonlinear_arith);
    assert(congruent(all * f(0), p0, m));
    lemma_congruent_add(all * fs, -ls, all * f(0), p0, m);
    lemma_congruent_add(all * fs + all * f(0), 0, ls, ls, m);
    lemma_congruent_add(-ls + p0, all * fs + all * f(0), ls, ls, m);
}

/// With zero among the points, the weight of another point is the opposite of
/// its Lagrange coefficient, up to the product of the points.
proof fn lemma_scaled_weight<F: Field>(xs: Seq<int>, i: int)
    requires
        are_points::<F>(xs),
        forall|i: int| 0 <= i < xs.len() ==> #[trigger] xs[i] != 0,
        0 <= i < xs.len(),
    ensures
        congruent(
            denominator(xs, 0) * weight::<F>(xs.push(0), xs[i]),
            -lagrange::<F>(xs, xs[i]),
            F::order(),
        ),
{
    let m = F::order();
    let x = xs[i];
    let ys = xs.push(0);
    let (n, d, e) = (numerator(xs, x), denominator(xs, x), denominator(ys, x));
    let (v, w) = (weight::<F>(xs, x), weight::<F>(ys, x));
    F::lemma_order();
    assert(ys.drop_last() =~= xs);
    assert(e == d * (0 - x));
    assert forall|j: int| 0 <= j < ys.len() implies 0 <= #[trigger] ys[j] < m by {
        if j < xs.len() {
            assert(ys[j] == xs[j]);
        }
    }
    lemma_weight::<F>(xs, x);
    lemma_weight::<F>(ys, x);
    lemma_denominator_nonzero::<F>(ys, x);
    lemma_numerator(xs, i);
    // e * (x * w) == x == e * -v
    lemma_congruent_mul(x, x, e * w, 1, m);
    lemma_congruent_mul(x, x, d * v, 1, m);
    assert(e * (x * w) == x * (e * w)) by (nonlinear_arith);
    assert(d * (0 - x) == -(d * x)) by (nonlinear_arith);
    assert(-(d * x) * (-v) == d * x * v) by (nonlinear_arith);
    assert(d * x * v == x * (d * v)) by (nonlinear_arith);
    lemma_cancel::<F>(e, x * w, -v);
    lemma_congruent_mul(n, n, x * w, -v, m);
    assert(n * x * w == n * (x * w)) by (nonlinear_arith);
    assert(n * (-v) == -1 * (n * v)) by (nonlinear_arith);
    lemma_residue(n * v, m);
    lemma_congruent_mul(-1, -1, (n * v) % m, n * v, m);
    assert(-1 * lagrange::<F>(xs, x) == -lagrange::<F>(xs, x));
}

} // verus!
