//! What linear maps, convolutions and resampling do in exact arithmetic.

use crate::conv::{
    biased, conv1x1_spec, conv1x1_sum, conv4x4_stride4_spec, conv_kxk_spec, Kernel, Patch,
};
use crate::index::{lemma_flat, lemma_unflat};
use crate::linear::{dot, linear_spec};
use crate::reals::{
    exact, is_integer, lemma_plain_numbers, lemma_total_same, lemma_total_zero, total,
};
use crate::resize::{blend, coordinate_of, resize_spec, sample_of, step_of, tap_of};
use crate::scalar::Arith;
use crate::tensor::{lemma_planes_at, Img};
use vstd::prelude::*;

verus! {

// ---- linear maps and convolutions -----------------------------------------------------

/// The bias of place `p`, 0 where there is none.
pub open spec fn bias_of<T>(v: spec_fn(T) -> real, bias: Option<Seq<T>>, p: int) -> real {
    match bias {
        Some(b) => v(b[p]),
        None => 0real,
    }
}

/// The element of plane `p` at row `y` and column `x`, 0 outside the plane.
pub open spec fn around<T>(v: spec_fn(T) -> real, img: Img<T>, p: int, y: int, x: int) -> real {
    if 0 <= y < img.h && 0 <= x < img.w {
        v(img.at(p, y, x))
    } else {
        0real
    }
}

pub proof fn lemma_dot<T>(
    m: Arith<T>,
    v: spec_fn(T) -> real,
    w: Seq<T>,
    i: int,
    x: Seq<T>,
    j: int,
    n: int,
)
    requires
        exact(m, v),
    ensures
        v(dot(m, w, i, x, j, n)) == total(|k: int| v(w[i + k]) * v(x[j + k]), n),
    decreases n,
{
    lemma_plain_numbers(m, v);
    if n > 0 {
        lemma_dot(m, v, w, i, x, j, n - 1);
    }
}

/// Output `o` of row `r` of a linear map is the sum of the elements of the row, each times its
/// weight for this output, plus the bias of the output.
pub proof fn lemma_linear<T>(
    m: Arith<T>,
    v: spec_fn(T) -> real,
    x: Seq<T>,
    w: Seq<T>,
    b: Option<Seq<T>>,
    ic: int,
    oc: int,
    r: int,
    o: int,
)
    requires
        exact(m, v),
        0 < ic,
        0 <= o < oc,
        0 <= r < x.len() as int / ic,
    ensures
        v(linear_spec(m, x, w, b, ic, oc)[r * oc + o]) == total(
            |k: int| v(w[o * ic + k]) * v(x[r * ic + k]),
            ic,
        ) + bias_of(v, b, o),
{
    lemma_flat(r, x.len() as int / ic, o, oc);
    lemma_unflat(r, o, oc);
    lemma_dot(m, v, w, o * ic, x, r * ic, ic);
}

proof fn lemma_conv1x1_sum<T>(
    m: Arith<T>,
    v: spec_fn(T) -> real,
    x: Seq<T>,
    hw: int,
    w: Seq<T>,
    base: int,
    s: int,
    n: int,
)
    requires
        exact(m, v),
    ensures
        v(conv1x1_sum(m, x, hw, w, base, s, n)) == total(
            |k: int| v(w[base + k]) * v(x[k * hw + s]),
            n,
        ),
    decreases n,
{
    lemma_plain_numbers(m, v);
    if n > 0 {
        lemma_conv1x1_sum(m, v, x, hw, w, base, s, n - 1);
        let (a, b) = (v(w[base + (n - 1)]), v(x[(n - 1) * hw + s]));
        assert(a == 0real ==> a * b == 0real) by (nonlinear_arith);
    }
}

/// An element of a 1x1 convolution is the sum over the planes of the elements at that very
/// position, each times the weight of its plane, plus the bias.
pub proof fn lemma_conv1x1<T>(
    m: Arith<T>,
    v: spec_fn(T) -> real,
    x: Img<T>,
    w: Seq<T>,
    oc: int,
    ic: int,
    bias: Option<Seq<T>>,
    p: int,
    y: int,
    col: int,
)
    requires
        exact(m, v),
        0 <= p < oc,
        0 <= y < x.h,
        0 <= col < x.w,
    ensures
        v(conv1x1_spec(m, x, w, oc, ic, bias).at(p, y, col)) == total(
            |k: int| v(w[p * ic + k]) * v(x.at(k, y, col)),
            ic,
        ) + bias_of(v, bias, p),
{
    let f = |p: int, s: int| biased(m, conv1x1_sum(m, x.data, x.hw(), w, p * ic, s, ic), bias, p);
    lemma_planes_at(oc, x.h, x.w, f, p, y, col);
    lemma_conv1x1_sum(m, v, x.data, x.hw(), w, p * ic, y * x.w + col, ic);
    lemma_total_same(
        |k: int| v(w[p * ic + k]) * v(x.data[k * x.hw() + (y * x.w + col)]),
        |k: int| v(w[p * ic + k]) * v(x.at(k, y, col)),
        ic,
    );
}

/// The summands under one kernel cell.
spec fn cell_term<T>(v: spec_fn(T) -> real, g: Kernel<T>, ky: int, kx: int) -> spec_fn(int) -> real {
    |ci: int|
        v(g.w[((g.p * g.ic + ci) * g.k + ky) * g.k + kx]) * around(
            v,
            g.x,
            ci,
            g.y + ky - g.k / 2,
            g.col + kx - g.k / 2,
        )
}

spec fn cell_sum<T>(v: spec_fn(T) -> real, g: Kernel<T>, ky: int) -> spec_fn(int) -> real {
    |kx: int| total(cell_term(v, g, ky, kx), g.ic)
}

spec fn row_sum<T>(v: spec_fn(T) -> real, g: Kernel<T>) -> spec_fn(int) -> real {
    |ky: int| total(cell_sum(v, g, ky), g.k)
}

proof fn lemma_cell<T>(
    m: Arith<T>,
    v: spec_fn(T) -> real,
    g: Kernel<T>,
    start: T,
    ky: int,
    kx: int,
    n: int,
)
    requires
        exact(m, v),
        0 <= g.row(ky) < g.x.h,
        0 <= g.column(kx) < g.x.w,
    ensures
        v(g.over_planes(m, start, ky, kx, n)) == v(start) + total(cell_term(v, g, ky, kx), n),
    decreases n,
{
    lemma_plain_numbers(m, v);
    if n > 0 {
        lemma_cell(m, v, g, start, ky, kx, n - 1);
        let a = v(g.w[((g.p * g.ic + (n - 1)) * g.k + ky) * g.k + kx]);
        let b = around(v, g.x, n - 1, g.row(ky), g.column(kx));
        assert(a == 0real ==> a * b == 0real) by (nonlinear_arith);
    }
}

proof fn lemma_cell_outside<T>(v: spec_fn(T) -> real, g: Kernel<T>, ky: int, kx: int, n: int)
    requires
        !(0 <= g.row(ky) < g.x.h && 0 <= g.column(kx) < g.x.w),
    ensures
        total(cell_term(v, g, ky, kx), n) == 0real,
{
    let f = cell_term(v, g, ky, kx);
    assert forall|ci: int| 0 <= ci < n implies #[trigger] f(ci) == 0real by {
        let a = v(g.w[((g.p * g.ic + ci) * g.k + ky) * g.k + kx]);
        assert(a * 0real == 0real) by (nonlinear_arith);
    }
    lemma_total_zero(f, n);
}

proof fn lemma_row<T>(m: Arith<T>, v: spec_fn(T) -> real, g: Kernel<T>, start: T, ky: int, n: int)
    requires
        exact(m, v),
        0 <= g.row(ky) < g.x.h,
    ensures
        v(g.over_columns(m, start, ky, n)) == v(start) + total(cell_sum(v, g, ky), n),
    decreases n,
{
    if n > 0 {
        lemma_row(m, v, g, start, ky, n - 1);
        let before = g.over_columns(m, start, ky, n - 1);
        if 0 <= g.column(n - 1) < g.x.w {
            lemma_cell(m, v, g, before, ky, n - 1, g.ic);
        } else {
            lemma_cell_outside(v, g, ky, n - 1, g.ic);
        }
    }
}

proof fn lemma_rows<T>(m: Arith<T>, v: spec_fn(T) -> real, g: Kernel<T>, n: int)
    requires
        exact(m, v),
    ensures
        v(g.over_rows(m, n)) == total(row_sum(v, g), n),
    decreases n,
{
    lemma_plain_numbers(m, v);
    if n > 0 {
        lemma_rows(m, v, g, n - 1);
        let before = g.over_rows(m, n - 1);
        if 0 <= g.row(n - 1) < g.x.h {
            lemma_row(m, v, g, before, n - 1, g.k);
        } else {
            let f = cell_sum(v, g, n - 1);
            assert forall|kx: int| 0 <= kx < g.k implies #[trigger] f(kx) == 0real by {
                lemma_cell_outside(v, g, n - 1, kx, g.ic);
            }
            lemma_total_zero(f, g.k);
        }
    }
}

/// What a `k` by `k` convolution makes at plane `p`, row `y` and column `col` of the elements
/// `src`, given by plane, row and column: the sum over the cells of the kernel and the planes of
/// the element under the cell, with the middle cell on the position itself, each times its
/// weight, plus the bias.
pub open spec fn convolved<T>(
    v: spec_fn(T) -> real,
    src: spec_fn(int, int, int) -> real,
    w: Seq<T>,
    ic: int,
    k: int,
    bias: Option<Seq<T>>,
    p: int,
    y: int,
    col: int,
) -> real {
    total(
        |ky: int|
            total(
                |kx: int|
                    total(
                        |ci: int|
                            v(w[((p * ic + ci) * k + ky) * k + kx]) * src(
                                ci,
                                y + ky - k / 2,
                                col + kx - k / 2,
                            ),
                        ic,
                    ),
                k,
            ),
        k,
    ) + bias_of(v, bias, p)
}

/// Convolutions of the same elements are the same.
pub proof fn lemma_convolved_same<T>(
    v: spec_fn(T) -> real,
    src: spec_fn(int, int, int) -> real,
    other: spec_fn(int, int, int) -> real,
    w: Seq<T>,
    ic: int,
    k: int,
    bias: Option<Seq<T>>,
    p: int,
    y: int,
    col: int,
)
    requires
        forall|ci: int, a: int, b: int|
            0 <= ci < ic ==> #[trigger] src(ci, a, b) == other(ci, a, b),
    ensures
        convolved(v, src, w, ic, k, bias, p, y, col) == convolved(
            v,
            other,
            w,
            ic,
            k,
            bias,
            p,
            y,
            col,
        ),
{
    let term = |s: spec_fn(int, int, int) -> real, ky: int, kx: int|
        |ci: int|
            v(w[((p * ic + ci) * k + ky) * k + kx]) * s(ci, y + ky - k / 2, col + kx - k / 2);
    let cell = |s: spec_fn(int, int, int) -> real, ky: int|
        |kx: int|
            total(
                |ci: int|
                    v(w[((p * ic + ci) * k + ky) * k + kx]) * s(
                        ci,
                        y + ky - k / 2,
                        col + kx - k / 2,
                    ),
                ic,
            );
    let row = |s: spec_fn(int, int, int) -> real|
        |ky: int|
            total(
                |kx: int|
                    total(
                        |ci: int|
                            v(w[((p * ic + ci) * k + ky) * k + kx]) * s(
                                ci,
                                y + ky - k / 2,
                                col + kx - k / 2,
                            ),
                        ic,
                    ),
                k,
            );
    let (r, t) = (row(src), row(other));
    assert forall|ky: int| 0 <= ky < k implies #[trigger] r(ky) == t(ky) by {
        let (c, d) = (cell(src, ky), cell(other, ky));
        assert forall|kx: int| 0 <= kx < k implies #[trigger] c(kx) == d(kx) by {
            lemma_total_same(term(src, ky, kx), term(other, ky, kx), ic);
        }
        lemma_total_same(c, d, k);
    }
    lemma_total_same(r, t, k);
}

/// The elements of a tensor, with zeros outside its planes.
pub open spec fn elements<T>(v: spec_fn(T) -> real, x: Img<T>) -> spec_fn(int, int, int) -> real {
    |p: int, y: int, col: int| around(v, x, p, y, col)
}

/// An element of a `k` by `k` convolution is the sum over the cells of the kernel and the planes
/// of the element under the cell, with the middle cell on the position itself and zeros outside
/// the plane, each times its weight, plus the bias.
pub proof fn lemma_conv_kxk<T>(
    m: Arith<T>,
    v: spec_fn(T) -> real,
    x: Img<T>,
    w: Seq<T>,
    oc: int,
    ic: int,
    k: int,
    bias: Option<Seq<T>>,
    p: int,
    y: int,
    col: int,
)
    requires
        exact(m, v),
        0 <= p < oc,
        0 <= y < x.h,
        0 <= col < x.w,
    ensures
        v(conv_kxk_spec(m, x, w, oc, ic, k, bias).at(p, y, col)) == convolved(
            v,
            elements(v, x),
            w,
            ic,
            k,
            bias,
            p,
            y,
            col,
        ),
{
    let f = |p: int, s: int|
        biased(
            m,
            (Kernel { x, w, ic, k, p, y: s / x.w, col: s % x.w }).over_rows(m, k),
            bias,
            p,
        );
    lemma_planes_at(oc, x.h, x.w, f, p, y, col);
    let g = Kernel { x, w, ic, k, p, y, col };
    lemma_rows(m, v, g, k);
    let by_row = |ky: int|
        total(
            |kx: int|
                total(
                    |ci: int|
                        v(w[((p * ic + ci) * k + ky) * k + kx]) * elements(v, x)(
                            ci,
                            y + ky - k / 2,
                            col + kx - k / 2,
                        ),
                    ic,
                ),
            k,
        );
    assert forall|ky: int| 0 <= ky < k implies #[trigger] by_row(ky) == row_sum(v, g)(ky) by {
        let by_cell = |kx: int|
            total(
                |ci: int|
                    v(w[((p * ic + ci) * k + ky) * k + kx]) * elements(v, x)(
                        ci,
                        y + ky - k / 2,
                        col + kx - k / 2,
                    ),
                ic,
            );
        assert forall|kx: int| 0 <= kx < k implies #[trigger] by_cell(kx) == cell_sum(v, g, ky)(
            kx,
        ) by {
            lemma_total_same(
                |ci: int|
                    v(w[((p * ic + ci) * k + ky) * k + kx]) * elements(v, x)(
                        ci,
                        y + ky - k / 2,
                        col + kx - k / 2,
                    ),
                cell_term(v, g, ky, kx),
                ic,
            );
        }
        lemma_total_same(by_cell, cell_sum(v, g, ky), k);
    }
    lemma_total_same(by_row, row_sum(v, g), k);
}

spec fn patch_term<T>(v: spec_fn(T) -> real, g: Patch<T>, ci: int, ky: int) -> spec_fn(int) -> real {
    |kx: int|
        v(g.w[((g.p * g.ic + ci) * 4 + ky) * 4 + kx]) * v(
            g.x.at(ci, g.y * 4 + ky, g.col * 4 + kx),
        )
}

spec fn patch_row<T>(v: spec_fn(T) -> real, g: Patch<T>, ci: int) -> spec_fn(int) -> real {
    |ky: int| total(patch_term(v, g, ci, ky), 4)
}

spec fn patch_plane<T>(v: spec_fn(T) -> real, g: Patch<T>) -> spec_fn(int) -> real {
    |ci: int| total(patch_row(v, g, ci), 4)
}

proof fn lemma_patch_columns<T>(
    m: Arith<T>,
    v: spec_fn(T) -> real,
    g: Patch<T>,
    start: T,
    ci: int,
    ky: int,
    n: int,
)
    requires
        exact(m, v),
    ensures
        v(g.over_columns(m, start, ci, ky, n)) == v(start) + total(patch_term(v, g, ci, ky), n),
    decreases n,
{
    if n > 0 {
        lemma_patch_columns(m, v, g, start, ci, ky, n - 1);
        let a = v(g.w[((g.p * g.ic + ci) * 4 + ky) * 4 + (n - 1)]);
        let b = v(g.x.at(ci, g.y * 4 + ky, g.col * 4 + (n - 1)));
        assert(a * b == b * a) by (nonlinear_arith);
    }
}

proof fn lemma_patch_rows<T>(
    m: Arith<T>,
    v: spec_fn(T) -> real,
    g: Patch<T>,
    start: T,
    ci: int,
    n: int,
)
    requires
        exact(m, v),
    ensures
        v(g.over_rows(m, start, ci, n)) == v(start) + total(patch_row(v, g, ci), n),
    decreases n,
{
    if n > 0 {
        lemma_patch_rows(m, v, g, start, ci, n - 1);
        lemma_patch_columns(m, v, g, g.over_rows(m, start, ci, n - 1), ci, n - 1, 4);
    }
}

proof fn lemma_patch_planes<T>(m: Arith<T>, v: spec_fn(T) -> real, g: Patch<T>, n: int)
    requires
        exact(m, v),
    ensures
        v(g.over_planes(m, n)) == total(patch_plane(v, g), n),
    decreases n,
{
    lemma_plain_numbers(m, v);
    if n > 0 {
        lemma_patch_planes(m, v, g, n - 1);
        lemma_patch_rows(m, v, g, g.over_planes(m, n - 1), n - 1, 4);
    }
}

/// An element of the convolution that cuts an image into patches is the sum over the planes and
/// the 4 by 4 positions of its patch, each times its weight, plus the bias.
pub proof fn lemma_conv4x4_stride4<T>(
    m: Arith<T>,
    v: spec_fn(T) -> real,
    x: Img<T>,
    w: Seq<T>,
    oc: int,
    ic: int,
    bias: Option<Seq<T>>,
    p: int,
    y: int,
    col: int,
)
    requires
        exact(m, v),
        0 <= p < oc,
        0 <= y < x.h / 4,
        0 <= col < x.w / 4,
    ensures
        v(conv4x4_stride4_spec(m, x, w, oc, ic, bias).at(p, y, col)) == total(
            |ci: int|
                total(
                    |ky: int|
                        total(
                            |kx: int|
                                v(w[((p * ic + ci) * 4 + ky) * 4 + kx]) * v(
                                    x.at(ci, y * 4 + ky, col * 4 + kx),
                                ),
                            4,
                        ),
                    4,
                ),
            ic,
        ) + bias_of(v, bias, p),
{
    let f = |p: int, s: int|
        biased(
            m,
            (Patch { x, w, ic, p, y: s / (x.w / 4), col: s % (x.w / 4) }).over_planes(m, ic),
            bias,
            p,
        );
    lemma_planes_at(oc, x.h / 4, x.w / 4, f, p, y, col);
    let g = Patch { x, w, ic, p, y, col };
    lemma_patch_planes(m, v, g, ic);
    let by_plane = |ci: int|
        total(
            |ky: int|
                total(
                    |kx: int|
                        v(w[((p * ic + ci) * 4 + ky) * 4 + kx]) * v(
                            x.at(ci, y * 4 + ky, col * 4 + kx),
                        ),
                    4,
                ),
            4,
        );
    assert forall|ci: int| 0 <= ci < ic implies #[trigger] by_plane(ci) == patch_plane(v, g)(
        ci,
    ) by {
        let by_row = |ky: int|
            total(
                |kx: int|
                    v(w[((p * ic + ci) * 4 + ky) * 4 + kx]) * v(
                        x.at(ci, y * 4 + ky, col * 4 + kx),
                    ),
                4,
            );
        assert forall|ky: int| 0 <= ky < 4 implies #[trigger] by_row(ky) == patch_row(v, g, ci)(
            ky,
        ) by {
            lemma_total_same(
                |kx: int|
                    v(w[((p * ic + ci) * 4 + ky) * 4 + kx]) * v(
                        x.at(ci, y * 4 + ky, col * 4 + kx),
                    ),
                patch_term(v, g, ci, ky),
                4,
            );
        }
        lemma_total_same(by_row, patch_row(v, g, ci), 4);
    }
    lemma_total_same(by_plane, patch_plane(v, g), ic);
}

// ---- resampling -----------------------------------------------------------------------

/// Where output position `at` of `to` lies among `from` input positions: with the first on the
/// first and the last on the last, or with the `from` cells covering what the `to` cells cover,
/// but not before the first.
pub open spec fn place(at: int, from: int, to: int, align_corners: bool) -> real {
    if align_corners {
        if to > 1 {
            at as real * ((from - 1) as real / (to - 1) as real)
        } else {
            0real
        }
    } else {
        let f = (at as real + 1real / 2real) * (from as real / to as real) - 1real / 2real;
        if f < 0real {
            0real
        } else {
            f
        }
    }
}

/// The value `ty` of the way down and `tx` of the way across between four corners.
pub open spec fn between(ty: real, tx: real, a: real, b: real, c: real, d: real) -> real {
    (1real - ty) * ((1real - tx) * a + tx * b) + ty * ((1real - tx) * c + tx * d)
}

/// Every output position lies at or behind the first input position, and less than one before
/// the end.
pub proof fn lemma_place_within(at: int, from: int, to: int, align_corners: bool)
    requires
        0 <= at < to,
        1 <= from,
    ensures
        0real <= place(at, from, to, align_corners) < from as real,
{
    let (a, n, k) = (at as real, from as real, to as real);
    if align_corners {
        if to > 1 {
            let (p, q) = ((from - 1) as real, (to - 1) as real);
            assert(0real <= a * (p / q) <= p) by (nonlinear_arith)
                requires
                    0real <= a <= q,
                    0real <= p,
                    0real < q,
            ;
        }
    } else {
        let f = (a + 1real / 2real) * (n / k) - 1real / 2real;
        assert(f < n) by (nonlinear_arith)
            requires
                0real <= a <= k - 1real,
                0real < n,
                0real < k,
                f == (a + 1real / 2real) * (n / k) - 1real / 2real,
        ;
    }
}

proof fn lemma_tap<T>(
    m: Arith<T>,
    v: spec_fn(T) -> real,
    at: int,
    from: int,
    to: int,
    align_corners: bool,
    n: int,
)
    requires
        exact(m, v),
        0 <= at < to <= usize::MAX,
        1 <= from <= usize::MAX,
        n as real <= place(at, from, to, align_corners) < n as real + 1real,
    ensures
        0 <= n < from,
        ({
            let t = tap_of(m, at, from, to, align_corners);
            &&& t.first == n
            &&& t.second == (if n + 1 < from {
                n + 1
            } else {
                n
            })
            &&& v(t.weight) == place(at, from, to, align_corners) - n as real
        }),
{
    lemma_plain_numbers(m, v);
    lemma_place_within(at, from, to, align_corners);
    let step = step_of(m, from, to, align_corners);
    let f = coordinate_of(m, at, step, align_corners);
    if align_corners && to <= 1 {
        assert(0real * 0real == 0real);
        assert(v(f) == at as real * 0real);
    }
    assert(v(f) == place(at, from, to, align_corners));
    assert(is_integer(n));
    let down = (m.rounded_down)(f);
    assert(v(down) == n as real);
    assert((m.to_usize)(down) == n);
}

/// An element of a resampled plane lies between the four elements around its place, as close to
/// each as its place is. The row above is `y0`, the column to the left `x0`; behind the last row
/// or column there is none, and the last counts twice.
pub proof fn lemma_resize<T>(
    m: Arith<T>,
    v: spec_fn(T) -> real,
    x: Img<T>,
    oh: int,
    ow: int,
    align_corners: bool,
    p: int,
    y: int,
    col: int,
    y0: int,
    x0: int,
)
    requires
        exact(m, v),
        x.wf(),
        0 <= p < x.c,
        0 <= y < oh <= usize::MAX,
        0 <= col < ow <= usize::MAX,
        1 <= x.h,
        1 <= x.w,
        y0 as real <= place(y, x.h, oh, align_corners) < y0 as real + 1real,
        x0 as real <= place(col, x.w, ow, align_corners) < x0 as real + 1real,
    ensures
        x.has(p, y0, x0),
        ({
            let y1 = if y0 + 1 < x.h {
                y0 + 1
            } else {
                y0
            };
            let x1 = if x0 + 1 < x.w {
                x0 + 1
            } else {
                x0
            };
            v(resize_spec(m, x, oh, ow, align_corners).at(p, y, col)) == between(
                place(y, x.h, oh, align_corners) - y0 as real,
                place(col, x.w, ow, align_corners) - x0 as real,
                v(x.at(p, y0, x0)),
                v(x.at(p, y0, x1)),
                v(x.at(p, y1, x0)),
                v(x.at(p, y1, x1)),
            )
        }),
{
    let f = |p: int, s: int|
        sample_of(
            m,
            x,
            p,
            tap_of(m, s / ow, x.h, oh, align_corners),
            tap_of(m, s % ow, x.w, ow, align_corners),
        );
    lemma_planes_at(x.c, oh, ow, f, p, y, col);
    lemma_tap(m, v, y, x.h, oh, align_corners, y0);
    lemma_tap(m, v, col, x.w, ow, align_corners, x0);
    let ty = tap_of(m, y, x.h, oh, align_corners);
    let tx = tap_of(m, col, x.w, ow, align_corners);
    let (a, b) = (x.at(p, ty.first, tx.first), x.at(p, ty.first, tx.second));
    let (c, d) = (x.at(p, ty.second, tx.first), x.at(p, ty.second, tx.second));
    let (wy, wx) = (v(ty.weight), v(tx.weight));
    lemma_blend(m, v, a, b, tx.weight);
    lemma_blend(m, v, c, d, tx.weight);
    lemma_blend(m, v, blend(m, a, b, tx.weight), blend(m, c, d, tx.weight), ty.weight);
}

proof fn lemma_blend<T>(m: Arith<T>, v: spec_fn(T) -> real, a: T, b: T, t: T)
    requires
        exact(m, v),
    ensures
        v(blend(m, a, b, t)) == (1real - v(t)) * v(a) + v(t) * v(b),
{
    let (x, y, s) = (v(a), v(b), v(t));
    assert(x + (y - x) * s == (1real - s) * x + s * y) by (nonlinear_arith);
}

/// An image that is resampled to its own size stays as it is.
pub proof fn lemma_resize_to_own_size<T>(
    m: Arith<T>,
    v: spec_fn(T) -> real,
    x: Img<T>,
    align_corners: bool,
    p: int,
    y: int,
    col: int,
)
    requires
        exact(m, v),
        x.wf(),
        x.has(p, y, col),
    ensures
        v(resize_spec(m, x, x.h, x.w, align_corners).at(p, y, col)) == v(x.at(p, y, col)),
{
    lemma_own_place(y, x.h, align_corners);
    lemma_own_place(col, x.w, align_corners);
    lemma_resize(m, v, x, x.h, x.w, align_corners, p, y, col, y, col);
    lemma_at_corner(v(x.at(p, y, col)));
}

proof fn lemma_own_place(at: int, n: int, align_corners: bool)
    requires
        0 <= at < n,
    ensures
        place(at, n, n, align_corners) == at as real,
{
    let (a, k, q) = (at as real, n as real, (n - 1) as real);
    assert(k / k == 1real) by (nonlinear_arith)
        requires
            k > 0real,
    ;
    assert((a + 1real / 2real) * 1real == a + 1real / 2real);
    if n > 1 {
        assert(q / q == 1real) by (nonlinear_arith)
            requires
                q > 0real,
        ;
        assert(a * 1real == a);
    }
}

/// On a corner the other corners do not count.
proof fn lemma_at_corner(a: real)
    ensures
        forall|b: real, c: real, d: real| #[trigger] between(0real, 0real, a, b, c, d) == a,
{
    assert forall|b: real, c: real, d: real| #[trigger]
        between(0real, 0real, a, b, c, d) == a by {
        assert((1real - 0real) * ((1real - 0real) * a + 0real * b) + 0real * ((1real - 0real) * c
            + 0real * d) == a) by (nonlinear_arith);
    }
}

/// A plane that holds one number everywhere holds it everywhere after resampling.
pub proof fn lemma_resize_keeps_constants<T>(
    m: Arith<T>,
    v: spec_fn(T) -> real,
    x: Img<T>,
    oh: int,
    ow: int,
    align_corners: bool,
    p: int,
    y: int,
    col: int,
    y0: int,
    x0: int,
    a: real,
)
    requires
        exact(m, v),
        x.wf(),
        0 <= p < x.c,
        0 <= y < oh <= usize::MAX,
        0 <= col < ow <= usize::MAX,
        1 <= x.h,
        1 <= x.w,
        y0 as real <= place(y, x.h, oh, align_corners) < y0 as real + 1real,
        x0 as real <= place(col, x.w, ow, align_corners) < x0 as real + 1real,
        forall|r: int, c: int| x.has(p, r, c) ==> v(#[trigger] x.at(p, r, c)) == a,
    ensures
        v(resize_spec(m, x, oh, ow, align_corners).at(p, y, col)) == a,
{
    lemma_resize(m, v, x, oh, ow, align_corners, p, y, col, y0, x0);
    let ty = place(y, x.h, oh, align_corners) - y0 as real;
    let tx = place(col, x.w, ow, align_corners) - x0 as real;
    assert((1real - ty) * ((1real - tx) * a + tx * a) + ty * ((1real - tx) * a + tx * a) == a)
        by (nonlinear_arith);
}

} // verus!
