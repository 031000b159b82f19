//! What is taken of a plane between its points, in exact arithmetic.

use crate::deform::Point;
use crate::exact_maps::around;
use crate::reals::{exact, is_integer, lemma_plain_numbers};
use crate::scalar::Arith;
use crate::tensor::Img;
use vstd::prelude::*;

verus! {

/// The point samples plane `ci` of `x`.
pub open spec fn samples<T>(g: Point<T>, x: Img<T>, ci: int) -> bool {
    g.data == x.data && g.base == ci * (x.h * x.w) && g.h == x.h && g.w == x.w
}

proof fn lemma_no_share(u: real, a: real)
    ensures
        (0real * u) * a == 0real,
        (u * 0real) * a == 0real,
        (u * a) * 0real == 0real,
{
    assert((0real * u) * a == 0real) by (nonlinear_arith);
    assert((u * 0real) * a == 0real) by (nonlinear_arith);
    assert((u * a) * 0real == 0real) by (nonlinear_arith);
}

/// What one neighbour in a row adds.
proof fn lemma_one_neighbour<T>(
    m: Arith<T>,
    v: spec_fn(T) -> real,
    g: Point<T>,
    x: Img<T>,
    ci: int,
    start: T,
    dy: int,
    n: int,
)
    requires
        exact(m, v),
        samples(g, x, ci),
        0 <= g.row(m) + dy < x.h,
        0 < n,
    ensures
        v(g.along_row(m, start, dy, n)) == v(g.along_row(m, start, dy, n - 1)) + (v(
            g.row_share(m, dy),
        ) * v(g.column_share(m, n - 1))) * around(
            v,
            x,
            ci,
            g.row(m) + dy,
            g.column(m) + (n - 1),
        ),
{
    lemma_plain_numbers(m, v);
    let at = g.column(m) + (n - 1);
    let (s, u) = (v(g.row_share(m, dy)), v(g.column_share(m, n - 1)));
    let a = around(v, x, ci, g.row(m) + dy, at);
    lemma_no_share(s, u);
    lemma_no_share(s, a);
    if at < 0 || at >= x.w {
        assert(a == 0real);
    } else if m.is_zero(g.column_share(m, n - 1)) {
        assert(u == 0real);
    } else {
        assert(g.data[g.base + ((g.row(m) + dy) * g.w + at)] == x.at(ci, g.row(m) + dy, at));
    }
}

/// What the neighbours in one row add.
proof fn lemma_one_row<T>(
    m: Arith<T>,
    v: spec_fn(T) -> real,
    g: Point<T>,
    x: Img<T>,
    ci: int,
    n: int,
)
    requires
        exact(m, v),
        samples(g, x, ci),
        0 < n,
    ensures
        v(g.over_rows(m, n)) == v(g.over_rows(m, n - 1)) + ((v(g.row_share(m, n - 1)) * v(
            g.column_share(m, 0),
        )) * around(v, x, ci, g.row(m) + (n - 1), g.column(m)) + (v(g.row_share(m, n - 1)) * v(
            g.column_share(m, 1),
        )) * around(v, x, ci, g.row(m) + (n - 1), g.column(m) + 1)),
{
    lemma_plain_numbers(m, v);
    let dy = n - 1;
    let at = g.row(m) + dy;
    let s = v(g.row_share(m, dy));
    let (c, d) = (v(g.column_share(m, 0)), v(g.column_share(m, 1)));
    let (a, b) = (around(v, x, ci, at, g.column(m)), around(v, x, ci, at, g.column(m) + 1));
    if at < 0 || at >= x.h {
        assert(a == 0real && b == 0real);
        lemma_no_share(s, c);
        lemma_no_share(s, d);
    } else if m.is_zero(g.row_share(m, dy)) {
        assert(s == 0real);
        lemma_no_share(c, a);
        lemma_no_share(d, b);
    } else {
        let before = g.over_rows(m, n - 1);
        lemma_one_neighbour(m, v, g, x, ci, before, dy, 1);
        lemma_one_neighbour(m, v, g, x, ci, before, dy, 2);
        assert(g.along_row(m, before, dy, 0) == before);
    }
}

/// A sample is the sum of the four elements around its point, each times the share of its row
/// and of its column, with zeros outside the plane.
pub proof fn lemma_sample<T>(
    m: Arith<T>,
    v: spec_fn(T) -> real,
    g: Point<T>,
    x: Img<T>,
    ci: int,
)
    requires
        exact(m, v),
        samples(g, x, ci),
    ensures
        ({
            let (y, col) = (g.row(m), g.column(m));
            let (above, below) = (v(g.row_share(m, 0)), v(g.row_share(m, 1)));
            let (left, right) = (v(g.column_share(m, 0)), v(g.column_share(m, 1)));
            v(g.sample(m)) == ((above * left) * around(v, x, ci, y, col) + (above * right) * around(
                v,
                x,
                ci,
                y,
                col + 1,
            )) + ((below * left) * around(v, x, ci, y + 1, col) + (below * right) * around(
                v,
                x,
                ci,
                y + 1,
                col + 1,
            ))
        }),
{
    lemma_plain_numbers(m, v);
    lemma_one_row(m, v, g, x, ci, 1);
    lemma_one_row(m, v, g, x, ci, 2);
    assert(g.over_rows(m, 0) == m.zero());
}

/// The row above a point is the last that is not below it, and the share of the row below is how
/// far the point lies from the row above.
pub proof fn lemma_rows_around<T>(m: Arith<T>, v: spec_fn(T) -> real, g: Point<T>, y: int)
    requires
        exact(m, v),
        isize::MIN <= y <= isize::MAX,
        y as real <= v(g.y) < y as real + 1real,
    ensures
        g.row(m) == y,
        v(g.row_share(m, 1)) == v(g.y) - y as real,
        v(g.row_share(m, 0)) == 1real - (v(g.y) - y as real),
{
    lemma_floor(m, v, g.y, y);
}

/// The column to the left of a point is the last that is not behind it, and the share of the
/// column to the right is how far the point lies from the one to the left.
pub proof fn lemma_columns_around<T>(m: Arith<T>, v: spec_fn(T) -> real, g: Point<T>, x: int)
    requires
        exact(m, v),
        isize::MIN <= x <= isize::MAX,
        x as real <= v(g.x) < x as real + 1real,
    ensures
        g.column(m) == x,
        v(g.column_share(m, 1)) == v(g.x) - x as real,
        v(g.column_share(m, 0)) == 1real - (v(g.x) - x as real),
{
    lemma_floor(m, v, g.x, x);
}

proof fn lemma_floor<T>(m: Arith<T>, v: spec_fn(T) -> real, a: T, n: int)
    requires
        exact(m, v),
        isize::MIN <= n <= isize::MAX,
        n as real <= v(a) < n as real + 1real,
    ensures
        (m.to_isize)((m.rounded_down)(a)) == n,
        v((m.minus)(a, (m.rounded_down)(a))) == v(a) - n as real,
        v((m.minus)(m.one(), (m.minus)(a, (m.rounded_down)(a)))) == 1real - (v(a) - n as real),
{
    lemma_plain_numbers(m, v);
    assert(is_integer(n));
    assert(v((m.rounded_down)(a)) == n as real);
}

} // verus!
