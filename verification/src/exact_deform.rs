//! What deformable convolution does in exact arithmetic.

use crate::deform::{deform_spec, Deform};
use crate::exact_sample::samples;
use crate::reals::{exact, lemma_plain_numbers, lemma_total_same, lemma_total_zero, total};
use crate::scalar::Arith;
use crate::tensor::lemma_planes_at;
use vstd::prelude::*;

verus! {

/// A kernel cell samples the plane at its position less the padding, moved by its two offsets at
/// the position of the output: the first of the two down, the second to the right.
pub proof fn lemma_cell_moves<T>(
    m: Arith<T>,
    v: spec_fn(T) -> real,
    d: Deform<T>,
    ci: int,
    ky: int,
    kx: int,
)
    requires
        exact(m, v),
        0 <= d.y <= usize::MAX,
        0 <= d.col <= usize::MAX,
        0 <= ky <= usize::MAX,
        0 <= kx <= usize::MAX,
        0 <= d.pad <= usize::MAX,
    ensures
        samples(d.point(m, ci, ky, kx), d.x, ci),
        v(d.point(m, ci, ky, kx).y) == (d.y + ky - d.pad) as real + v(
            d.offset[(2 * (ky * d.k + kx)) * (d.x.h * d.x.w) + (d.y * d.x.w + d.col)],
        ),
        v(d.point(m, ci, ky, kx).x) == (d.col + kx - d.pad) as real + v(
            d.offset[(2 * (ky * d.k + kx) + 1) * (d.x.h * d.x.w) + (d.y * d.x.w + d.col)],
        ),
{
}

/// What a kernel cell adds for plane `ci`: its weight, times how much it counts at the position
/// of the output, times its sample of the plane.
#[verifier::opaque]
pub open spec fn cell_adds<T>(
    m: Arith<T>,
    v: spec_fn(T) -> real,
    d: Deform<T>,
    ky: int,
    kx: int,
    ci: int,
) -> real {
    (v(d.w[((d.p * d.x.c + ci) * d.k + ky) * d.k + kx]) * v(
        d.mask[(ky * d.k + kx) * (d.x.h * d.x.w) + (d.y * d.x.w + d.col)],
    )) * v(d.point(m, ci, ky, kx).sample(m))
}

spec fn cell_term<T>(
    m: Arith<T>,
    v: spec_fn(T) -> real,
    d: Deform<T>,
    ky: int,
    kx: int,
) -> spec_fn(int) -> real {
    |ci: int| cell_adds(m, v, d, ky, kx, ci)
}

spec fn cell_sum<T>(
    m: Arith<T>,
    v: spec_fn(T) -> real,
    d: Deform<T>,
    ky: int,
) -> spec_fn(int) -> real {
    |kx: int| total(cell_term(m, v, d, ky, kx), d.x.c)
}

spec fn row_sum<T>(m: Arith<T>, v: spec_fn(T) -> real, d: Deform<T>) -> spec_fn(int) -> real {
    |ky: int| total(cell_sum(m, v, d, ky), d.k)
}

proof fn lemma_no_weight(u: real, a: real)
    ensures
        (0real * u) * a == 0real,
        (u * 0real) * a == 0real,
{
    assert((0real * u) * a == 0real) by (nonlinear_arith);
    assert((u * 0real) * a == 0real) by (nonlinear_arith);
}

proof fn lemma_cell<T>(
    m: Arith<T>,
    v: spec_fn(T) -> real,
    d: Deform<T>,
    start: T,
    ky: int,
    kx: int,
    n: int,
)
    requires
        exact(m, v),
    ensures
        v(d.over_planes(m, start, ky, kx, n)) == v(start) + total(cell_term(m, v, d, ky, kx), n),
    decreases n,
{
    lemma_plain_numbers(m, v);
    if n > 0 {
        lemma_cell(m, v, d, start, ky, kx, n - 1);
        reveal(cell_adds);
        let f = v(d.mask[(ky * d.k + kx) * (d.x.h * d.x.w) + (d.y * d.x.w + d.col)]);
        lemma_no_weight(f, v(d.point(m, n - 1, ky, kx).sample(m)));
    }
}

proof fn lemma_row<T>(
    m: Arith<T>,
    v: spec_fn(T) -> real,
    d: Deform<T>,
    start: T,
    ky: int,
    n: int,
)
    requires
        exact(m, v),
    ensures
        v(d.over_columns(m, start, ky, n)) == v(start) + total(cell_sum(m, v, d, ky), n),
    decreases n,
{
    lemma_plain_numbers(m, v);
    if n > 0 {
        lemma_row(m, v, d, start, ky, n - 1);
        let before = d.over_columns(m, start, ky, n - 1);
        if m.is_zero(d.factor(ky * d.k + (n - 1))) {
            let t = cell_term(m, v, d, ky, n - 1);
            assert forall|ci: int| 0 <= ci < d.x.c implies #[trigger] t(ci) == 0real by {
                reveal(cell_adds);
                let a = v(d.w[((d.p * d.x.c + ci) * d.k + ky) * d.k + (n - 1)]);
                lemma_no_weight(a, v(d.point(m, ci, ky, n - 1).sample(m)));
            }
            lemma_total_zero(t, d.x.c);
        } else {
            lemma_cell(m, v, d, before, ky, n - 1, d.x.c);
        }
    }
}

proof fn lemma_rows<T>(m: Arith<T>, v: spec_fn(T) -> real, d: Deform<T>, n: int)
    requires
        exact(m, v),
    ensures
        v(d.over_rows(m, n)) == total(row_sum(m, v, d), n),
    decreases n,
{
    lemma_plain_numbers(m, v);
    if n > 0 {
        lemma_rows(m, v, d, n - 1);
        lemma_row(m, v, d, d.over_rows(m, n - 1), n - 1, d.k);
    }
}

/// An element of a deformable convolution is the sum over the cells of the kernel and the planes
/// of what the cell adds for the plane.
pub proof fn lemma_deform<T>(m: Arith<T>, v: spec_fn(T) -> real, d: Deform<T>, oc: int)
    requires
        exact(m, v),
        0 <= d.p < oc,
        0 <= d.y < d.x.h,
        0 <= d.col < d.x.w,
    ensures
        v(deform_spec(m, d.x, d.offset, d.mask, d.w, oc, d.k, d.pad).at(d.p, d.y, d.col)) == total(
            |ky: int|
                total(
                    |kx: int| total(|ci: int| cell_adds(m, v, d, ky, kx, ci), d.x.c),
                    d.k,
                ),
            d.k,
        ),
{
    let (x, offset, mask, w, k, pad) = (d.x, d.offset, d.mask, d.w, d.k, d.pad);
    let f = |p: int, s: int|
        (Deform { x, offset, mask, w, k, pad, p, y: s / x.w, col: s % x.w }).over_rows(m, k);
    lemma_planes_at(oc, x.h, x.w, f, d.p, d.y, d.col);
    lemma_rows(m, v, d, k);
    let by_row = |ky: int|
        total(|kx: int| total(|ci: int| cell_adds(m, v, d, ky, kx, ci), d.x.c), d.k);
    assert forall|ky: int| 0 <= ky < k implies #[trigger] by_row(ky) == row_sum(m, v, d)(ky) by {
        let by_cell = |kx: int| total(|ci: int| cell_adds(m, v, d, ky, kx, ci), d.x.c);
        assert forall|kx: int| 0 <= kx < k implies #[trigger] by_cell(kx) == cell_sum(m, v, d, ky)(
            kx,
        ) by {
            lemma_total_same(
                |ci: int| cell_adds(m, v, d, ky, kx, ci),
                cell_term(m, v, d, ky, kx),
                d.x.c,
            );
        }
        lemma_total_same(by_cell, cell_sum(m, v, d, ky), k);
    }
    lemma_total_same(by_row, row_sum(m, v, d), k);
}

} // verus!
