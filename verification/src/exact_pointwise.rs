//! What activations, norms and softmax do in exact arithmetic.

use crate::attention::{peak_of, softmax_spec, weights_of};
use crate::graph::{factor_of, folded_scale, folded_shift, Affine};
use crate::index::{lemma_flat, lemma_unflat};
use crate::linear::LN_EPS;
use crate::pointwise::{
    affine_spec, erf_of, gelu_of, inverse_deviation, layernorm_spec, mean_of, pooled, relu_of,
    sigmoid_of, spread_of, sum_of, ERF_A1, ERF_A2, ERF_A3, ERF_A4, ERF_A5, ERF_P, SQRT_2,
};
use crate::reals::{
    exact, lemma_as_quotient, lemma_plain_numbers, lemma_powers, lemma_single, lemma_total_positive,
    lemma_total_same, lemma_total_scaled, total, two_to,
};
use crate::scalar::{computes, Arith, Scalar};
use crate::tensor::{lemma_planes_at, Img};
use crate::weights::{data, Checkpoint};
use vstd::prelude::*;

verus! {

// ---- activations ----------------------------------------------------------------------

/// Quotients behave.
proof fn lemma_quotient(a: real, b: real)
    requires
        b > 0real,
    ensures
        (a / b) * b == a,
        a > 0real ==> a / b > 0real,
{
    assert((a / b) * b == a) by (nonlinear_arith)
        requires
            b > 0real,
    ;
    assert(a > 0real ==> a / b > 0real) by (nonlinear_arith)
        requires
            b > 0real,
    ;
}

/// `top / (1 + 1 / e)` has the odds `e` of `top` against nothing.
proof fn lemma_odds(top: real, e: real, back: real, r: real)
    requires
        top > 0real,
        e > 0real,
        back > 0real,
        back * e == 1real,
        r == top / (1real + back),
    ensures
        r == (top - r) * e,
        0real < r < top,
{
    lemma_quotient(top, 1real + back);
    assert(r == (top - r) * e && r < top) by (nonlinear_arith)
        requires
            r * (1real + back) == top,
            back * e == 1real,
            r > 0real,
            e > 0real,
            back > 0real,
    ;
}

/// The sigmoid gives the number between 0 and 1 whose odds against the rest of 1 are the
/// exponential of what goes in. So it grows, and what it gives for a number and for its negation
/// adds up to 1.
pub proof fn lemma_sigmoid<T>(m: Arith<T>, v: spec_fn(T) -> real, a: T, b: T)
    requires
        exact(m, v),
    ensures
        0real < v(sigmoid_of(m, a)) < 1real,
        v(sigmoid_of(m, a)) == (1real - v(sigmoid_of(m, a))) * v((m.exponential)(a)),
        v(a) < v(b) ==> v(sigmoid_of(m, a)) < v(sigmoid_of(m, b)),
        v(sigmoid_of(m, a)) + v(sigmoid_of(m, (m.negated)(a))) == 1real,
{
    lemma_plain_numbers(m, v);
    lemma_odds_of(m, v, m.one(), 1real, a, b);
}

/// What is weighed by the odds `exp(a)`.
proof fn lemma_odds_of<T>(m: Arith<T>, v: spec_fn(T) -> real, top: T, t: real, a: T, b: T)
    requires
        exact(m, v),
        v(top) == t,
        t > 0real,
    ensures
        ({
            let f = |x: T|
                v((m.over)(top, (m.plus)(m.one(), (m.exponential)((m.negated)(x)))));
            &&& 0real < f(a) < t
            &&& f(a) == (t - f(a)) * v((m.exponential)(a))
            &&& v(a) < v(b) ==> f(a) < f(b)
            &&& f(a) + f((m.negated)(a)) == t
        }),
{
    lemma_plain_numbers(m, v);
    let f = |x: T| v((m.over)(top, (m.plus)(m.one(), (m.exponential)((m.negated)(x)))));
    let na = (m.negated)(a);
    let (ea, eb, en) = (v((m.exponential)(a)), v((m.exponential)(b)), v((m.exponential)(na)));
    lemma_odds(t, ea, en, f(a));
    lemma_odds(t, eb, v((m.exponential)((m.negated)(b))), f(b));
    lemma_odds(t, en, v((m.exponential)((m.negated)(na))), f(na));
    let (ra, rb, rn) = (f(a), f(b), f(na));
    if v(a) < v(b) {
        assert(ra < rb) by (nonlinear_arith)
            requires
                ra == (t - ra) * ea,
                rb == (t - rb) * eb,
                ea < eb,
                0real < ra < t,
                0real < rb < t,
                0real < ea,
        ;
    }
    assert(ra + rn == t) by (nonlinear_arith)
        requires
            ra == (t - ra) * ea,
            rn == (t - rn) * en,
            en * ea == 1real,
            0real < ea,
            0real < en,
    ;
}

/// How much a kernel cell counts is the number between 0 and 2 whose odds against the rest of 2
/// are the exponential of what the modulator gives: twice its sigmoid. So a cell counts more the
/// more the modulator gives, as much as an unweighted one where it gives 0, and as close to twice
/// as much as one likes where it gives enough.
pub proof fn lemma_factor<T>(m: Arith<T>, v: spec_fn(T) -> real, a: T, b: T, close: real)
    requires
        exact(m, v),
    ensures
        0real < v(factor_of(m, a)) < 2real,
        v(factor_of(m, a)) == (2real - v(factor_of(m, a))) * v((m.exponential)(a)),
        v(factor_of(m, a)) == 2real * v(sigmoid_of(m, a)),
        v(a) < v(b) ==> v(factor_of(m, a)) < v(factor_of(m, b)),
        v(a) == 0real ==> v(factor_of(m, a)) == 1real,
        close > 0real && v((m.exponential)(a)) * close >= 2real ==> v(factor_of(m, a))
            > 2real - close,
{
    lemma_plain_numbers(m, v);
    lemma_odds_of(m, v, (m.bits)(crate::graph::TWO), 2real, a, b);
    lemma_odds_of(m, v, m.one(), 1real, a, b);
    let (r, s, e) = (v(factor_of(m, a)), v(sigmoid_of(m, a)), v((m.exponential)(a)));
    assert(r == 2real * s) by (nonlinear_arith)
        requires
            r == (2real - r) * e,
            s == (1real - s) * e,
            e > 0real,
    ;
    if v(a) == 0real {
        let na = (m.negated)(a);
        let en = v((m.exponential)(na));
        assert(e == en);
        assert(e == 1real) by (nonlinear_arith)
            requires
                e * e == 1real,
                e > 0real,
        ;
    }
    if close > 0real && e * close >= 2real {
        assert(r > 2real - close) by (nonlinear_arith)
            requires
                r == (2real - r) * e,
                e * close >= 2real,
                0real < r < 2real,
                close > 0real,
                e > 0real,
        ;
    }
}

/// ReLU gives the larger of the number and 0.
pub proof fn lemma_relu<T>(m: Arith<T>, v: spec_fn(T) -> real, a: T)
    requires
        exact(m, v),
    ensures
        v(relu_of(m, a)) >= 0real,
        v(relu_of(m, a)) >= v(a),
        v(relu_of(m, a)) == 0real || v(relu_of(m, a)) == v(a),
{
    lemma_plain_numbers(m, v);
}

/// The coefficients of the error function are those of formula 7.1.26 of Abramowitz and Stegun,
/// to within a ten-millionth.
pub proof fn lemma_erf_coefficients<T>(m: Arith<T>, v: spec_fn(T) -> real)
    requires
        exact(m, v),
    ensures
        3275910real / 10000000real < v((m.bits)(ERF_P)) < 3275912real / 10000000real,
        2548295real / 10000000real < v((m.bits)(ERF_A1)) < 2548297real / 10000000real,
        2844966real / 10000000real < v((m.bits)(ERF_A2)) < 2844968real / 10000000real,
        14214136real / 10000000real < v((m.bits)(ERF_A3)) < 14214139real / 10000000real,
        14531519real / 10000000real < v((m.bits)(ERF_A4)) < 14531522real / 10000000real,
        10614053real / 10000000real < v((m.bits)(ERF_A5)) < 10614055real / 10000000real,
        14142135real / 10000000real < v((m.bits)(SQRT_2)) < 14142136real / 10000000real,
{
    lemma_powers();
    lemma_as_quotient(ERF_P, 125, 0x27_ba05, 0x200_0000real);
    lemma_as_quotient(ERF_A1, 125, 0x2_7906, 0x200_0000real);
    lemma_as_quotient(ERF_A2, 125, 0x11_a98e, 0x200_0000real);
    lemma_as_quotient(ERF_A3, 127, 0x35_f0e3, 0x80_0000real);
    lemma_as_quotient(ERF_A4, 127, 0x3a_00e3, 0x80_0000real);
    lemma_as_quotient(ERF_A5, 127, 0x7_dc22, 0x80_0000real);
    lemma_as_quotient(SQRT_2, 127, 0x35_04f3, 0x80_0000real);
}

/// GELU of a number less GELU of its negation is the number, and the two together are the number
/// times the error function of it over the root of 2, wherever the error function is odd.
pub proof fn lemma_gelu<T>(m: Arith<T>, v: spec_fn(T) -> real, a: T)
    requires
        exact(m, v),
        v(erf_of(m, (m.over)((m.negated)(a), (m.bits)(SQRT_2)))) == -v(
            erf_of(m, (m.over)(a, (m.bits)(SQRT_2))),
        ),
    ensures
        v(gelu_of(m, a)) - v(gelu_of(m, (m.negated)(a))) == v(a),
        v(gelu_of(m, a)) + v(gelu_of(m, (m.negated)(a))) == v(a) * v(
            erf_of(m, (m.over)(a, (m.bits)(SQRT_2))),
        ),
{
    lemma_plain_numbers(m, v);
    let (x, e) = (v(a), v(erf_of(m, (m.over)(a, (m.bits)(SQRT_2)))));
    let h = 1real / 2real;
    assert((h * x) * (1real + e) - (h * -x) * (1real + -e) == x && (h * x) * (1real + e) + (h * -x)
        * (1real + -e) == x * e) by (nonlinear_arith)
        requires
            h == 1real / 2real,
    ;
}

// ---- batch norm -----------------------------------------------------------------------

/// The number that keeps divisors from being zero is a hundred-thousandth, to within a part in
/// ten million.
pub proof fn lemma_least_divisor<T>(m: Arith<T>, v: spec_fn(T) -> real)
    requires
        exact(m, v),
    ensures
        99999real / 10000000000real < v((m.bits)(LN_EPS)) < 100001real / 10000000000real,
{
    lemma_single(LN_EPS, 110, 0x27_c5ac);
    reveal_with_fuel(two_to, 41);
    assert(two_to(-40) == 1real / 0x100_0000_0000real);
    let k = (0x80_0000 + 0x27_c5acint) as real;
    assert(k == 0xa7_c5acreal);
    assert(99999real / 10000000000real < k * (1real / 0x100_0000_0000real) < 100001real
        / 10000000000real) by (nonlinear_arith)
        requires
            k == 0xa7_c5acreal,
    ;
}

/// Of two positive numbers with the same square there is but one.
proof fn lemma_root(a: real, b: real)
    requires
        a >= 0real,
        b >= 0real,
        a * a == b * b,
    ensures
        a == b,
{
    assert(a == b) by (nonlinear_arith)
        requires
            a >= 0real,
            b >= 0real,
            a * a == b * b,
    ;
}

/// Batch norm folded into a scale and a shift is batch norm: a number of plane `c` becomes its
/// distance from the running mean, divided by `root`, the root of the running variance with the
/// least divisor added, times the weight, plus the bias. So the running mean itself becomes the
/// bias.
pub proof fn lemma_batch_norm<T>(
    m: Arith<T>,
    v: spec_fn(T) -> real,
    w: Seq<T>,
    b: Seq<T>,
    mean: Seq<T>,
    var: Seq<T>,
    c: int,
    x: T,
    root: real,
)
    requires
        exact(m, v),
        0 <= c < w.len(),
        root > 0real,
        root * root == v(var[c]) + v((m.bits)(LN_EPS)),
    ensures
        v(x) * v(folded_scale(m, w, var)[c]) + v(folded_shift(m, w, b, mean, var)[c]) == (v(x) - v(
            mean[c],
        )) / root * v(w[c]) + v(b[c]),
        v(x) == v(mean[c]) ==> v(x) * v(folded_scale(m, w, var)[c]) + v(
            folded_shift(m, w, b, mean, var)[c],
        ) == v(b[c]),
{
    let under = (m.plus)(var[c], (m.bits)(LN_EPS));
    assert(root * root > 0real) by (nonlinear_arith)
        requires
            root > 0real,
    ;
    lemma_root(v((m.square_root)(under)), root);
    let s = v(folded_scale(m, w, var)[c]);
    assert(s == v(w[c]) / root);
    let (xx, mm, ww) = (v(x), v(mean[c]), v(w[c]));
    assert(xx * (ww / root) - mm * (ww / root) == (xx - mm) / root * ww) by (nonlinear_arith)
        requires
            root > 0real,
    ;
    if xx == mm {
        assert((xx - mm) / root * ww == 0real) by (nonlinear_arith)
            requires
                xx == mm,
                root > 0real,
        ;
    }
}

/// A scale and a shift for each plane, as an element comes to see them.
pub proof fn lemma_affine_at<T>(
    m: Arith<T>,
    v: spec_fn(T) -> real,
    x: Img<T>,
    scale: Seq<T>,
    shift: Seq<T>,
    p: int,
    y: int,
    col: int,
)
    requires
        exact(m, v),
        x.data.len() == x.c * (x.h * x.w),
        x.has(p, y, col),
    ensures
        v(affine_spec(m, x, scale, shift).at(p, y, col)) == v(x.at(p, y, col)) * v(scale[p]) + v(
            shift[p],
        ),
{
    lemma_planes_at(x.c, x.h, x.w, |a: int, b: int| x.data[0], p, y, col);
}

/// Batch norm that was loaded from a checkpoint does to a feature map what the weights of the
/// checkpoint say: each element becomes its distance from the running mean of its plane, divided
/// by the root of the running variance with the least divisor added, times the weight of the
/// plane, plus its bias.
pub proof fn lemma_loaded_batch_norm<T: Scalar>(
    a: Affine<T>,
    m: Arith<T>,
    v: spec_fn(T) -> real,
    c: Checkpoint,
    prefix: Seq<char>,
    x: Img<T>,
    p: int,
    y: int,
    col: int,
    root: real,
)
    requires
        computes(m),
        exact(m, v),
        a.loaded(c, prefix),
        x.wf(),
        x.has(p, y, col),
        p < data(m, c, prefix + ".weight"@).len(),
        root > 0real,
        root * root == v(data(m, c, prefix + ".running_var"@)[p]) + v((m.bits)(LN_EPS)),
    ensures
        v(a.out(m, x).at(p, y, col)) == (v(x.at(p, y, col)) - v(
            data(m, c, prefix + ".running_mean"@)[p],
        )) / root * v(data(m, c, prefix + ".weight"@)[p]) + v(data(m, c, prefix + ".bias"@)[p]),
{
    lemma_affine_at(m, v, x, a.scale@, a.shift@, p, y, col);
    lemma_batch_norm(
        m,
        v,
        data(m, c, prefix + ".weight"@),
        data(m, c, prefix + ".bias"@),
        data(m, c, prefix + ".running_mean"@),
        data(m, c, prefix + ".running_var"@),
        p,
        x.at(p, y, col),
        root,
    );
}

// ---- means and layer norm -------------------------------------------------------------

/// Adding up in order gives the sum.
pub proof fn lemma_sum<T>(m: Arith<T>, v: spec_fn(T) -> real, s: Seq<T>, n: int)
    requires
        exact(m, v),
    ensures
        v(sum_of(m, s, n)) == total(|k: int| v(s[k]), n),
    decreases n,
{
    lemma_plain_numbers(m, v);
    if n > 0 {
        lemma_sum(m, v, s, n - 1);
    }
}

proof fn lemma_spread<T>(m: Arith<T>, v: spec_fn(T) -> real, s: Seq<T>, mean: T, n: int)
    requires
        exact(m, v),
    ensures
        v(spread_of(m, s, mean, n)) == total(
            |k: int| (v(s[k]) - v(mean)) * (v(s[k]) - v(mean)),
            n,
        ),
        v(spread_of(m, s, mean, n)) >= 0real,
    decreases n,
{
    lemma_plain_numbers(m, v);
    if n > 0 {
        lemma_spread(m, v, s, mean, n - 1);
        let d = v(s[n - 1]) - v(mean);
        assert(d * d >= 0real) by (nonlinear_arith);
    }
}

/// The mean of a plane times the number of its elements is their sum.
pub proof fn lemma_pooled<T>(m: Arith<T>, v: spec_fn(T) -> real, x: Img<T>, p: int)
    requires
        exact(m, v),
        x.wf(),
        0 <= p < x.c,
        0 < x.hw(),
    ensures
        pooled(m, x).len() == x.c,
        v(pooled(m, x)[p]) * (x.h * x.w) as real == total(
            |s: int| v(x.data[p * (x.h * x.w) + s]),
            x.h * x.w,
        ),
{
    let hw = x.hw();
    lemma_flat(p, x.c, hw - 1, hw);
    let row = x.data.subrange(p * hw, p * hw + hw);
    lemma_sum(m, v, row, hw);
    lemma_total_same(|k: int| v(row[k]), |s: int| v(x.data[p * (x.h * x.w) + s]), hw);
    lemma_quotient(v(sum_of(m, row, hw)), hw as real);
}

/// Layer norm of a row: each element becomes its distance from the mean of the row, divided by
/// `root`, the root of the variance of the row with `eps` added, times the weight of its place,
/// plus the bias of its place. Rows do not see each other.
pub proof fn lemma_layer_norm<T>(
    m: Arith<T>,
    v: spec_fn(T) -> real,
    x: Seq<T>,
    n: int,
    c: int,
    w: Seq<T>,
    b: Seq<T>,
    eps: T,
    r: int,
    i: int,
    mean: real,
    root: real,
)
    requires
        exact(m, v),
        0 < c <= usize::MAX,
        0 <= r < n,
        0 <= i < c,
        n * c <= x.len(),
        v(eps) > 0real,
        mean * c as real == total(|k: int| v(x[r * c + k]), c),
        root > 0real,
        (root * root - v(eps)) * c as real == total(
            |k: int| (v(x[r * c + k]) - mean) * (v(x[r * c + k]) - mean),
            c,
        ),
    ensures
        v(layernorm_spec(m, x, n, c, w, b, eps)[r * c + i]) == (v(x[r * c + i]) - mean) / root * v(
            w[i],
        ) + v(b[i]),
{
    lemma_plain_numbers(m, v);
    lemma_flat(r, n, i, c);
    lemma_unflat(r, i, c);
    let row = x.subrange(r * c, r * c + c);
    lemma_sum(m, v, row, c);
    lemma_total_same(|k: int| v(row[k]), |k: int| v(x[r * c + k]), c);
    let count = (m.of_usize)(c as usize);
    let mu = mean_of(m, row);
    let n_ = c as real;
    lemma_quotient(v(sum_of(m, row, c)), n_);
    assert(v(mu) == mean) by (nonlinear_arith)
        requires
            v(mu) * n_ == mean * n_,
            n_ > 0real,
    ;
    lemma_spread(m, v, row, mu, c);
    lemma_total_same(
        |k: int| (v(row[k]) - v(mu)) * (v(row[k]) - v(mu)),
        |k: int| (v(x[r * c + k]) - mean) * (v(x[r * c + k]) - mean),
        c,
    );
    let sp = spread_of(m, row, mu, c);
    let variance = (m.over)(sp, count);
    lemma_quotient(v(sp), n_);
    assert(v(variance) == root * root - v(eps)) by (nonlinear_arith)
        requires
            v(variance) * n_ == (root * root - v(eps)) * n_,
            n_ > 0real,
    ;
    assert(root * root > 0real) by (nonlinear_arith)
        requires
            root > 0real,
    ;
    let under = (m.plus)(variance, eps);
    lemma_root(v((m.square_root)(under)), root);
    let (d, ww) = (v(row[i]) - mean, v(w[i]));
    assert(v(inverse_deviation(m, row, eps)) == 1real / root);
    assert(d * (1real / root) * ww == d / root * ww) by (nonlinear_arith)
        requires
            root > 0real,
    ;
}

// ---- softmax --------------------------------------------------------------------------

/// The shares of softmax are positive, add up to 1, and stand to each other as the exponentials
/// of what goes in.
pub proof fn lemma_softmax<T>(m: Arith<T>, v: spec_fn(T) -> real, row: Seq<T>, i: int, j: int)
    requires
        exact(m, v),
        0 <= i < row.len(),
        0 <= j < row.len(),
    ensures
        softmax_spec(m, row).len() == row.len(),
        v(softmax_spec(m, row)[i]) > 0real,
        total(|k: int| v(softmax_spec(m, row)[k]), row.len() as int) == 1real,
        v(softmax_spec(m, row)[i]) * v((m.exponential)(row[j])) == v(softmax_spec(m, row)[j]) * v(
            (m.exponential)(row[i]),
        ),
{
    lemma_plain_numbers(m, v);
    let n = row.len() as int;
    let e = weights_of(m, row);
    let peak = peak_of(m, row, n);
    let f = |k: int| v(e[k]);
    lemma_sum(m, v, e, n);
    assert forall|k: int| 0 <= k < n implies #[trigger] f(k) > 0real by {}
    lemma_total_positive(f, n);
    let t = v(sum_of(m, e, n));
    let inv = v((m.over)(m.one(), sum_of(m, e, n)));
    lemma_quotient(1real, t);
    let g = |k: int| v(softmax_spec(m, row)[k]);
    assert forall|k: int| 0 <= k < n implies #[trigger] g(k) == inv * f(k) by {
        let a = v(e[k]);
        assert(a * inv == inv * a) by (nonlinear_arith);
    }
    lemma_total_scaled(g, f, inv, n);
    assert(inv * t == 1real);
    let (a, b, p) = (v(e[i]), v(e[j]), v((m.exponential)(peak)));
    assert(a * inv > 0real) by (nonlinear_arith)
        requires
            a > 0real,
            inv > 0real,
    ;
    assert((a * inv) * (b * p) == (b * inv) * (a * p)) by (nonlinear_arith);
}

} // verus!
