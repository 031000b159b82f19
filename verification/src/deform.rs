//! Modulated deformable convolution.

use crate::conv::{conv_kxk_spec, lemma_cell, lemma_flat_cell, Kernel};
use crate::index::{lemma_flat, lemma_split};
use crate::parallel::par_map;
use crate::scalar::{computes, Arith, Scalar, ONE};
use crate::tensor::{dims_fit, from_planes, lemma_planes_eq, planes, Img, Tensor};
use vstd::prelude::*;

verus! {

// ---- sampling a plane between its points ----------------------------------------------

/// The share that the two neighbours along one axis have in a sample that lies
/// `past` beyond the first of them.
pub open spec fn share_of<T>(m: Arith<T>, past: T, d: int) -> T {
    if d == 0 {
        (m.minus)(m.one(), past)
    } else {
        past
    }
}

/// A point of the plane that starts at `base` of `data`, of `h` rows and `w`
/// columns, that is sampled at row `y` and column `x`.
#[verifier::reject_recursive_types(T)]
pub struct Point<T> {
    pub data: Seq<T>,
    pub base: int,
    pub h: int,
    pub w: int,
    pub y: T,
    pub x: T,
}

impl<T> Point<T> {
    /// The row of the first neighbour.
    pub open spec fn row(self, m: Arith<T>) -> int {
        (m.to_isize)((m.rounded_down)(self.y)) as int
    }

    /// The column of the first neighbour.
    pub open spec fn column(self, m: Arith<T>) -> int {
        (m.to_isize)((m.rounded_down)(self.x)) as int
    }

    /// The share of row neighbour `dy`.
    pub open spec fn row_share(self, m: Arith<T>, dy: int) -> T {
        share_of(m, (m.minus)(self.y, (m.rounded_down)(self.y)), dy)
    }

    /// The share of column neighbour `dx`.
    pub open spec fn column_share(self, m: Arith<T>, dx: int) -> T {
        share_of(m, (m.minus)(self.x, (m.rounded_down)(self.x)), dx)
    }

    /// `start` plus the contributions of the first `n` column neighbours in the
    /// row of neighbour `dy`. A neighbour outside the plane, or with no share,
    /// adds nothing.
    pub open spec fn along_row(self, m: Arith<T>, start: T, dy: int, n: int) -> T
        decreases n,
    {
        if n <= 0 {
            start
        } else {
            let before = self.along_row(m, start, dy, n - 1);
            let at = self.column(m) + (n - 1);
            let share = self.column_share(m, n - 1);
            if at < 0 || at >= self.w || m.is_zero(share) {
                before
            } else {
                (m.plus)(
                    before,
                    (m.times)(
                        (m.times)(self.row_share(m, dy), share),
                        self.data[self.base + ((self.row(m) + dy) * self.w + at)],
                    ),
                )
            }
        }
    }

    /// The contributions of the first `n` row neighbours, from zero.
    pub open spec fn over_rows(self, m: Arith<T>, n: int) -> T
        decreases n,
    {
        if n <= 0 {
            m.zero()
        } else {
            let before = self.over_rows(m, n - 1);
            let at = self.row(m) + (n - 1);
            if at < 0 || at >= self.h || m.is_zero(self.row_share(m, n - 1)) {
                before
            } else {
                self.along_row(m, before, n - 1, 2)
            }
        }
    }

    /// The bilinear sample, with zeros outside the plane.
    pub open spec fn sample(self, m: Arith<T>) -> T {
        self.over_rows(m, 2)
    }
}

/// The position `d` after `start`, where it lies within `len`.
fn neighbour(start: isize, d: usize, len: usize) -> (r: Option<usize>)
    requires
        d <= 1,
    ensures
        match r {
            Some(i) => i == start + d && i < len,
            None => !(0 <= start + d < len),
        },
{
    if start >= 0 {
        let first = start as usize;
        if first < len && d < len - first {
            Some(first + d)
        } else {
            None
        }
    } else if start == -1 && d == 1 && 0 < len {
        Some(0)
    } else {
        None
    }
}

/// Bilinear sample of a plane, with zeros outside it.
fn bilinear<T: Scalar>(data: &Vec<T>, base: usize, h: usize, w: usize, y: T, x: T) -> (r: T)
    requires
        base + h * w <= data@.len(),
    ensures
        forall|m: Arith<T>| #[trigger]
            computes(m) ==> r == (Point {
                data: data@,
                base: base as int,
                h: h as int,
                w: w as int,
                y,
                x,
            }).sample(m),
{
    let ghost g = Point {
        data: data@,
        base: base as int,
        h: h as int,
        w: w as int,
        y,
        x,
    };
    let one = T::from_bits(ONE);
    let zero = T::from_bits(0);
    let yf = y.rounded_down();
    let xf = x.rounded_down();
    let y0 = yf.to_isize();
    let x0 = xf.to_isize();
    let ly = y.minus(yf);
    let lx = x.minus(xf);
    let top = one.minus(ly);
    let left = one.minus(lx);
    let mut acc = zero;
    let mut dy: usize = 0;
    while dy < 2
        invariant
            dy <= 2,
            base + h * w <= data@.len(),
            g == (Point { data: data@, base: base as int, h: h as int, w: w as int, y, x }),
            forall|m: Arith<T>| #[trigger]
                computes(m) ==> {
                    &&& zero == m.zero()
                    &&& y0 == g.row(m)
                    &&& x0 == g.column(m)
                    &&& top == g.row_share(m, 0)
                    &&& ly == g.row_share(m, 1)
                    &&& left == g.column_share(m, 0)
                    &&& lx == g.column_share(m, 1)
                },
            forall|m: Arith<T>| #[trigger] computes(m) ==> acc == g.over_rows(m, dy as int),
        decreases 2 - dy,
    {
        let wy = if dy == 0 {
            top
        } else {
            ly
        };
        let found = neighbour(y0, dy, h);
        let skip = wy.same(zero);
        if let Some(iy) = found {
            if !skip {
                let ghost start = acc;
                let mut dx: usize = 0;
                while dx < 2
                    invariant
                        dx <= 2,
                        dy < 2,
                        iy < h,
                        iy == y0 + dy,
                        base + h * w <= data@.len(),
                        g == (Point {
                            data: data@,
                            base: base as int,
                            h: h as int,
                            w: w as int,
                            y,
                            x,
                        }),
                        forall|m: Arith<T>| #[trigger]
                            computes(m) ==> {
                                &&& zero == m.zero()
                                &&& y0 == g.row(m)
                                &&& x0 == g.column(m)
                                &&& wy == g.row_share(m, dy as int)
                                &&& left == g.column_share(m, 0)
                                &&& lx == g.column_share(m, 1)
                            },
                        forall|m: Arith<T>| #[trigger]
                            computes(m) ==> acc == g.along_row(m, start, dy as int, dx as int),
                    decreases 2 - dx,
                {
                    let wx = if dx == 0 {
                        left
                    } else {
                        lx
                    };
                    let none = wx.same(zero);
                    if let Some(ix) = neighbour(x0, dx, w) {
                        if !none {
                            proof {
                                assert(data@.len() == data.len());
                                lemma_flat(iy as int, h as int, ix as int, w as int);
                            }
                            acc = acc.plus(wy.times(wx).times(data[base + (iy * w + ix)]));
                        }
                    }
                    dx += 1;
                }
            }
        }
        dy += 1;
    }
    acc
}

// ---- the convolution ------------------------------------------------------------------

/// One output element of a deformable convolution: plane `p`, row `y`, column
/// `col`. Kernel cell `(ky, kx)` is number `ky * k + kx`; its sampling point is
/// moved by planes `2 * cell` (down) and `2 * cell + 1` (right) of `offset`, and its
/// contribution is scaled by plane `cell` of `mask`.
#[verifier::reject_recursive_types(T)]
pub struct Deform<T> {
    pub x: Img<T>,
    pub offset: Seq<T>,
    pub mask: Seq<T>,
    pub w: Seq<T>,
    pub k: int,
    pub pad: int,
    pub p: int,
    pub y: int,
    pub col: int,
}

/// `(at + cell - pad) + moved`.
pub open spec fn moved_to<T>(m: Arith<T>, at: int, cell: int, pad: int, moved: T) -> T {
    (m.plus)(
        (m.minus)(
            (m.plus)((m.of_usize)(at as usize), (m.of_usize)(cell as usize)),
            (m.of_usize)(pad as usize),
        ),
        moved,
    )
}

impl<T> Deform<T> {
    /// The position of the output element within its plane.
    pub open spec fn at(self) -> int {
        self.y * self.x.w + self.col
    }

    /// The factor of kernel cell `cell`.
    pub open spec fn factor(self, cell: int) -> T {
        self.mask[cell * self.x.hw() + self.at()]
    }

    /// The point of input plane `ci` that kernel cell `(ky, kx)` samples.
    pub open spec fn point(self, m: Arith<T>, ci: int, ky: int, kx: int) -> Point<T> {
        let cell = ky * self.k + kx;
        Point {
            data: self.x.data,
            base: ci * self.x.hw(),
            h: self.x.h,
            w: self.x.w,
            y: moved_to(
                m,
                self.y,
                ky,
                self.pad,
                self.offset[(2 * cell) * self.x.hw() + self.at()],
            ),
            x: moved_to(
                m,
                self.col,
                kx,
                self.pad,
                self.offset[(2 * cell + 1) * self.x.hw() + self.at()],
            ),
        }
    }

    /// `start` plus weight times factor times sample over the first `n` input
    /// planes; a weight that is zero is passed over.
    pub open spec fn over_planes(self, m: Arith<T>, start: T, ky: int, kx: int, n: int) -> T
        decreases n,
    {
        if n <= 0 {
            start
        } else {
            let before = self.over_planes(m, start, ky, kx, n - 1);
            let wv = self.w[((self.p * self.x.c + (n - 1)) * self.k + ky) * self.k + kx];
            if m.is_zero(wv) {
                before
            } else {
                (m.plus)(
                    before,
                    (m.times)(
                        (m.times)(wv, self.factor(ky * self.k + kx)),
                        self.point(m, n - 1, ky, kx).sample(m),
                    ),
                )
            }
        }
    }

    /// Continued over the first `n` cells of kernel row `ky`; a cell whose factor is
    /// zero is passed over.
    pub open spec fn over_columns(self, m: Arith<T>, start: T, ky: int, n: int) -> T
        decreases n,
    {
        if n <= 0 {
            start
        } else {
            let before = self.over_columns(m, start, ky, n - 1);
            if m.is_zero(self.factor(ky * self.k + (n - 1))) {
                before
            } else {
                self.over_planes(m, before, ky, n - 1, self.x.c)
            }
        }
    }

    /// Continued over the first `n` rows of the kernel, from zero.
    pub open spec fn over_rows(self, m: Arith<T>, n: int) -> T
        decreases n,
    {
        if n <= 0 {
            m.zero()
        } else {
            self.over_columns(m, self.over_rows(m, n - 1), n - 1, self.k)
        }
    }
}

/// The deformable convolution of `x` with stride 1.
pub open spec fn deform_spec<T>(
    m: Arith<T>,
    x: Img<T>,
    offset: Seq<T>,
    mask: Seq<T>,
    w: Seq<T>,
    oc: int,
    k: int,
    pad: int,
) -> Img<T> {
    planes(
        oc,
        x.h,
        x.w,
        |p: int, s: int|
            (Deform { x, offset, mask, w, k, pad, p, y: s / x.w, col: s % x.w }).over_rows(m, k),
    )
}

/// The dimensions on which a deformable convolution is defined.
pub open spec fn deform_fits(
    xc: int,
    h: int,
    w: int,
    offset_c: int,
    offset_len: int,
    mask_len: int,
    wlen: int,
    oc: int,
    k: int,
) -> bool {
    &&& offset_c == 2 * (k * k)
    &&& (2 * (k * k)) * (h * w) <= offset_len
    &&& (k * k) * (h * w) <= mask_len
    &&& oc * xc * k * k <= wlen
    &&& dims_fit(oc, h, w)
}

fn moved<T: Scalar>(at: usize, cell: usize, pad: usize, by: T) -> (r: T)
    ensures
        forall|m: Arith<T>| #[trigger]
            computes(m) ==> r == moved_to(m, at as int, cell as int, pad as int, by),
{
    T::from_usize(at).plus(T::from_usize(cell)).minus(T::from_usize(pad)).plus(by)
}

/// One output element.
fn deform_at<T: Scalar>(
    x: &Tensor<T>,
    offset: &Tensor<T>,
    mask: &Tensor<T>,
    w: &[T],
    oc: usize,
    k: usize,
    pad: usize,
    p: usize,
    y: usize,
    col: usize,
) -> (r: T)
    requires
        x@.wf(),
        deform_fits(
            x.c as int,
            x.h as int,
            x.w as int,
            offset.c as int,
            offset.data@.len() as int,
            mask.data@.len() as int,
            w@.len() as int,
            oc as int,
            k as int,
        ),
        p < oc,
        y < x.h,
        col < x.w,
    ensures
        forall|m: Arith<T>| #[trigger]
            computes(m) ==> r == (Deform {
                x: x@,
                offset: offset.data@,
                mask: mask.data@,
                w: w@,
                k: k as int,
                pad: pad as int,
                p: p as int,
                y: y as int,
                col: col as int,
            }).over_rows(m, k as int),
{
    let ghost g = Deform {
        x: x@,
        offset: offset.data@,
        mask: mask.data@,
        w: w@,
        k: k as int,
        pad: pad as int,
        p: p as int,
        y: y as int,
        col: col as int,
    };
    let hw = x.hw();
    let ic = x.c;
    let zero = T::from_bits(0);
    proof {
        lemma_flat(y as int, x.h as int, col as int, x.w as int);
    }
    let at = y * x.w + col;
    let mut acc = zero;
    let mut ky: usize = 0;
    while ky < k
        invariant
            ky <= k,
            hw == x@.hw(),
            ic == x.c,
            x@.wf(),
            deform_fits(
                x.c as int,
                x.h as int,
                x.w as int,
                offset.c as int,
                offset.data@.len() as int,
                mask.data@.len() as int,
                w@.len() as int,
                oc as int,
                k as int,
            ),
            p < oc,
            at < hw,
            at == g.at(),
            g == (Deform {
                x: x@,
                offset: offset.data@,
                mask: mask.data@,
                w: w@,
                k: k as int,
                pad: pad as int,
                p: p as int,
                y: y as int,
                col: col as int,
            }),
            forall|m: Arith<T>| #[trigger] computes(m) ==> zero == m.zero(),
            forall|m: Arith<T>| #[trigger] computes(m) ==> acc == g.over_rows(m, ky as int),
        decreases k - ky,
    {
        let ghost start = acc;
        let mut kx: usize = 0;
        while kx < k
            invariant
                kx <= k,
                ky < k,
                hw == x@.hw(),
                ic == x.c,
                x@.wf(),
                deform_fits(
                    x.c as int,
                    x.h as int,
                    x.w as int,
                    offset.c as int,
                    offset.data@.len() as int,
                    mask.data@.len() as int,
                    w@.len() as int,
                    oc as int,
                    k as int,
                ),
                p < oc,
                at < hw,
                at == g.at(),
                g == (Deform {
                    x: x@,
                    offset: offset.data@,
                    mask: mask.data@,
                    w: w@,
                    k: k as int,
                    pad: pad as int,
                    p: p as int,
                    y: y as int,
                    col: col as int,
                }),
                forall|m: Arith<T>| #[trigger] computes(m) ==> zero == m.zero(),
                forall|m: Arith<T>| #[trigger]
                    computes(m) ==> acc == g.over_columns(m, start, ky as int, kx as int),
            decreases k - kx,
        {
            proof {
                assert(offset.data@.len() == offset.data.len());
                assert(mask.data@.len() == mask.data.len());
                lemma_flat_cell(ky as int, kx as int, k as int, at as int, hw as int);
            }
            let cell = ky * k + kx;
            let off_y = offset.data[(2 * cell) * hw + at];
            let off_x = offset.data[(2 * cell + 1) * hw + at];
            let factor = mask.data[cell * hw + at];
            if !factor.same(zero) {
                let sy = moved(y, ky, pad, off_y);
                let sx = moved(col, kx, pad, off_x);
                let ghost before = acc;
                let mut ci: usize = 0;
                while ci < ic
                    invariant
                        ci <= ic,
                        ky < k,
                        kx < k,
                        hw == x@.hw(),
                        ic == x.c,
                        x@.wf(),
                        oc * ic * k * k <= w@.len(),
                        p < oc,
                        g == (Deform {
                            x: x@,
                            offset: offset.data@,
                            mask: mask.data@,
                            w: w@,
                            k: k as int,
                            pad: pad as int,
                            p: p as int,
                            y: y as int,
                            col: col as int,
                        }),
                        factor == g.factor(ky * k + kx),
                        forall|m: Arith<T>| #[trigger]
                            computes(m) ==> {
                                &&& zero == m.zero()
                                &&& sy == g.point(m, 0, ky as int, kx as int).y
                                &&& sx == g.point(m, 0, ky as int, kx as int).x
                            },
                        forall|m: Arith<T>| #[trigger]
                            computes(m) ==> acc == g.over_planes(
                                m,
                                before,
                                ky as int,
                                kx as int,
                                ci as int,
                            ),
                    decreases ic - ci,
                {
                    proof {
                        assert(w@.len() == w.len());
                        lemma_cell(
                            p as int,
                            oc as int,
                            ci as int,
                            ic as int,
                            ky as int,
                            kx as int,
                            k as int,
                        );
                        assert(0 <= ci * hw && ci * hw + hw <= ic * hw) by (nonlinear_arith)
                            requires
                                ci < ic,
                        ;
                    }
                    let wv = w[((p * ic + ci) * k + ky) * k + kx];
                    if !wv.same(zero) {
                        let v = bilinear(&x.data, ci * hw, x.h, x.w, sy, sx);
                        acc = acc.plus(wv.times(factor).times(v));
                    }
                    ci += 1;
                }
            }
            kx += 1;
        }
        ky += 1;
    }
    acc
}

/// `v` is plane `p` of a deformable convolution of `x`.
spec fn is_deform_plane<T: Scalar>(
    v: Seq<T>,
    x: Img<T>,
    offset: Seq<T>,
    mask: Seq<T>,
    w: Seq<T>,
    k: int,
    pad: int,
    p: int,
) -> bool {
    &&& v.len() == x.hw()
    &&& forall|m: Arith<T>| #[trigger]
        computes(m) ==> forall|s: int|
            0 <= s < v.len() ==> #[trigger] v[s] == (Deform {
                x,
                offset,
                mask,
                w,
                k,
                pad,
                p,
                y: s / x.w,
                col: s % x.w,
            }).over_rows(m, k)
}

fn deform_plane<T: Scalar>(
    x: &Tensor<T>,
    offset: &Tensor<T>,
    mask: &Tensor<T>,
    w: &[T],
    oc: usize,
    k: usize,
    pad: usize,
    p: usize,
) -> (r: Vec<T>)
    requires
        x@.wf(),
        deform_fits(
            x.c as int,
            x.h as int,
            x.w as int,
            offset.c as int,
            offset.data@.len() as int,
            mask.data@.len() as int,
            w@.len() as int,
            oc as int,
            k as int,
        ),
        p < oc,
    ensures
        is_deform_plane(r@, x@, offset.data@, mask.data@, w@, k as int, pad as int, p as int),
{
    let hw = x.hw();
    let mut r: Vec<T> = Vec::with_capacity(hw);
    let mut s: usize = 0;
    while s < hw
        invariant
            s <= hw,
            hw == x@.hw(),
            x@.wf(),
            deform_fits(
                x.c as int,
                x.h as int,
                x.w as int,
                offset.c as int,
                offset.data@.len() as int,
                mask.data@.len() as int,
                w@.len() as int,
                oc as int,
                k as int,
            ),
            p < oc,
            r@.len() == s,
            forall|m: Arith<T>| #[trigger]
                computes(m) ==> forall|t: int|
                    0 <= t < s ==> #[trigger] r@[t] == (Deform {
                        x: x@,
                        offset: offset.data@,
                        mask: mask.data@,
                        w: w@,
                        k: k as int,
                        pad: pad as int,
                        p: p as int,
                        y: t / x.w as int,
                        col: t % x.w as int,
                    }).over_rows(m, k as int),
        decreases hw - s,
    {
        proof {
            lemma_split(s as int, x.h as int, x.w as int);
        }
        r.push(deform_at(x, offset, mask, w, oc, k, pad, p, s / x.w, s % x.w));
        s += 1;
    }
    r
}

/// Deformable convolution with stride 1: each kernel cell samples the input at its
/// own moved point, and its contribution is scaled by its own factor.
pub fn deform_conv2d<T: Scalar>(
    x: &Tensor<T>,
    offset: &Tensor<T>,
    mask: &Tensor<T>,
    weight: &[T],
    oc: usize,
    k: usize,
    pad: usize,
) -> (r: Tensor<T>)
    requires
        x@.wf(),
        deform_fits(
            x.c as int,
            x.h as int,
            x.w as int,
            offset.c as int,
            offset.data@.len() as int,
            mask.data@.len() as int,
            weight@.len() as int,
            oc as int,
            k as int,
        ),
    ensures
        r@.wf(),
        r.c == oc && r.h == x.h && r.w == x.w,
        forall|m: Arith<T>| #[trigger]
            computes(m) ==> r@ == deform_spec(
                m,
                x@,
                offset@.data,
                mask@.data,
                weight@,
                oc as int,
                k as int,
                pad as int,
            ),
{
    let plane = |p: usize| -> (v: Vec<T>)
        requires
            p < oc,
        ensures
            is_deform_plane(
                v@,
                x@,
                offset.data@,
                mask.data@,
                weight@,
                k as int,
                pad as int,
                p as int,
            ),
        { deform_plane(x, offset, mask, weight, oc, k, pad, p) };
    let rows = par_map(oc, plane);
    assert forall|i: int| 0 <= i < rows@.len() implies (#[trigger] rows@[i])@.len() == x@.hw() by {
        assert(is_deform_plane(
            rows@[i as usize as int]@,
            x@,
            offset.data@,
            mask.data@,
            weight@,
            k as int,
            pad as int,
            i,
        ));
    }
    let r = from_planes(oc, x.h, x.w, rows);
    assert forall|m: Arith<T>| #[trigger] computes(m) implies r@ == deform_spec(
        m,
        x@,
        offset@.data,
        mask@.data,
        weight@,
        oc as int,
        k as int,
        pad as int,
    ) by {
        let got = |p: int, s: int| rows@[p]@[s];
        let want = |p: int, s: int|
            (Deform {
                x: x@,
                offset: offset@.data,
                mask: mask@.data,
                w: weight@,
                k: k as int,
                pad: pad as int,
                p,
                y: s / x@.w,
                col: s % x@.w,
            }).over_rows(m, k as int);
        assert forall|p: int, s: int|
            0 <= p < oc && 0 <= s < x.h * x.w implies #[trigger] got(p, s) == want(p, s) by {
            assert(is_deform_plane(
                rows@[p as usize as int]@,
                x@,
                offset.data@,
                mask.data@,
                weight@,
                k as int,
                pad as int,
                p,
            ));
        }
        lemma_planes_eq(oc as int, x.h as int, x.w as int, got, want);
    }
    r
}

// ---- laws -----------------------------------------------------------------------------

/// The sampling point of a kernel cell that is not moved is computed exactly.
pub open spec fn lands<T>(m: Arith<T>, at: int, cell: int, pad: int) -> bool {
    let to = moved_to(m, at, cell, pad, m.zero());
    &&& (m.to_isize)((m.rounded_down)(to)) == at + cell - pad
    &&& (m.minus)(to, (m.rounded_down)(to)) == m.zero()
}

/// In the table `m`, 0 and 1 act as such on the numbers for which `finite` holds. A sum is only
/// asked to stand still under 0 where `sums` holds of it, which it does of every sum that began
/// at 0: with single-precision numbers, of everything but the negative zero.
#[verifier::opaque]
pub open spec fn acts_plainly<T>(
    m: Arith<T>,
    finite: spec_fn(T) -> bool,
    sums: spec_fn(T) -> bool,
) -> bool {
    &&& ones_and_zeros(m)
    &&& forall|v: T| #[trigger]
        finite(v) ==> (m.times)(m.one(), v) == v && (m.times)(v, m.one()) == v
    &&& sums(m.zero())
    &&& forall|a: T, v: T| #![trigger (m.plus)(a, v)] sums(a) ==> sums((m.plus)(a, v))
    &&& forall|a: T, v: T|
        #![trigger (m.plus)(a, (m.times)(v, m.zero()))]
        sums(a) && finite(v) ==> (m.plus)(a, (m.times)(v, m.zero())) == a
    &&& forall|a: T, w: T, v: T|
        #![trigger (m.plus)(a, (m.times)(w, (m.plus)(m.zero(), v)))]
        sums(a) && finite(w) && finite(v) ==> (m.plus)(
            a,
            (m.times)(w, (m.plus)(m.zero(), v)),
        ) == (m.plus)(a, (m.times)(w, v))
}

/// 0 and 1 act as such on each other.
pub open spec fn ones_and_zeros<T>(m: Arith<T>) -> bool {
    &&& m.is_zero(m.zero())
    &&& !m.is_zero(m.one())
    &&& (m.minus)(m.one(), m.zero()) == m.one()
    &&& (m.times)(m.one(), m.one()) == m.one()
}

/// What a weight adds to a sum: nothing at a zero, and at a number what it adds plainly.
proof fn lemma_adds<T>(
    m: Arith<T>,
    finite: spec_fn(T) -> bool,
    sums: spec_fn(T) -> bool,
    a: T,
    w: T,
    v: T,
)
    requires
        acts_plainly(m, finite, sums),
        sums(a),
        finite(w),
    ensures
        (m.times)(w, m.one()) == w,
        (m.plus)(a, (m.times)(w, m.zero())) == a,
        finite(v) ==> (m.times)(m.one(), v) == v && (m.plus)(
            a,
            (m.times)(w, (m.plus)(m.zero(), v)),
        ) == (m.plus)(a, (m.times)(w, v)),
        sums((m.plus)(a, (m.times)(w, v))),
{
    reveal(acts_plainly);
}

/// A sample at a point of the plane is the number there; beyond the plane it is zero.
proof fn lemma_sample_at<T>(m: Arith<T>, g: Point<T>)
    requires
        ones_and_zeros(m),
        (m.minus)(g.y, (m.rounded_down)(g.y)) == m.zero(),
        (m.minus)(g.x, (m.rounded_down)(g.x)) == m.zero(),
    ensures
        g.sample(m) == (if 0 <= g.row(m) < g.h && 0 <= g.column(m) < g.w {
            (m.plus)(
                m.zero(),
                (m.times)(m.one(), g.data[g.base + (g.row(m) * g.w + g.column(m))]),
            )
        } else {
            m.zero()
        }),
{
    assert(g.row_share(m, 0) == m.one() && g.row_share(m, 1) == m.zero());
    assert(g.column_share(m, 0) == m.one() && g.column_share(m, 1) == m.zero());
    reveal_with_fuel(Point::over_rows, 3);
    reveal_with_fuel(Point::along_row, 3);
    assert(g.over_rows(m, 2) == g.over_rows(m, 1));
    assert(g.along_row(m, m.zero(), 0, 2) == g.along_row(m, m.zero(), 0, 1));
}

/// Everything that a law on an undeformed convolution speaks of.
#[verifier::reject_recursive_types(T)]
pub struct Undeformed<T> {
    pub x: Img<T>,
    pub offset: Seq<T>,
    pub mask: Seq<T>,
    pub w: Seq<T>,
    pub oc: int,
    pub k: int,
}

impl<T> Undeformed<T> {
    /// The offsets are all 0 and the factors all 1, and the numbers are such that 0 and 1 act on
    /// them as such and the points of the image are computed exactly.
    pub open spec fn holds(
        self,
        m: Arith<T>,
        finite: spec_fn(T) -> bool,
        sums: spec_fn(T) -> bool,
    ) -> bool {
        let hw = self.x.hw();
        &&& acts_plainly(m, finite, sums)
        &&& self.x.wf()
        &&& 0 <= self.k
        &&& 0 <= self.oc
        &&& self.offset.len() == (2 * (self.k * self.k)) * hw
        &&& self.mask.len() == (self.k * self.k) * hw
        &&& self.w.len() == self.oc * self.x.c * self.k * self.k
        &&& forall|i: int| 0 <= i < self.offset.len() ==> #[trigger] self.offset[i] == m.zero()
        &&& forall|i: int| 0 <= i < self.mask.len() ==> #[trigger] self.mask[i] == m.one()
        &&& forall|i: int| 0 <= i < self.w.len() ==> finite(#[trigger] self.w[i])
        &&& forall|i: int| 0 <= i < self.x.data.len() ==> finite(#[trigger] self.x.data[i])
        &&& forall|at: int, cell: int|
            (0 <= at < self.x.h || 0 <= at < self.x.w) && 0 <= cell < self.k ==> #[trigger] lands(
                m,
                at,
                cell,
                self.k / 2,
            )
    }

    spec fn moved(self, p: int, y: int, col: int) -> Deform<T> {
        Deform {
            x: self.x,
            offset: self.offset,
            mask: self.mask,
            w: self.w,
            k: self.k,
            pad: self.k / 2,
            p,
            y,
            col,
        }
    }

    spec fn still(self, p: int, y: int, col: int) -> Kernel<T> {
        Kernel { x: self.x, w: self.w, ic: self.x.c, k: self.k, p, y, col }
    }

    proof fn lemma_planes(
        self,
        m: Arith<T>,
        finite: spec_fn(T) -> bool,
        sums: spec_fn(T) -> bool,
        p: int,
        y: int,
        col: int,
        start: T,
        ky: int,
        kx: int,
        n: int,
    )
        requires
            self.holds(m, finite, sums),
            sums(start),
            0 <= p < self.oc,
            0 <= y < self.x.h,
            0 <= col < self.x.w,
            0 <= ky < self.k,
            0 <= kx < self.k,
            0 <= n <= self.x.c,
        ensures
            sums(self.moved(p, y, col).over_planes(m, start, ky, kx, n)),
            self.moved(p, y, col).over_planes(m, start, ky, kx, n) == (if 0 <= self.still(
                p,
                y,
                col,
            ).row(ky) < self.x.h && 0 <= self.still(p, y, col).column(kx) < self.x.w {
                self.still(p, y, col).over_planes(m, start, ky, kx, n)
            } else {
                start
            }),
        decreases n,
    {
        if n > 0 {
            self.lemma_planes(m, finite, sums, p, y, col, start, ky, kx, n - 1);
            let d = self.moved(p, y, col);
            let q = self.still(p, y, col);
            let hw = self.x.hw();
            let before = d.over_planes(m, start, ky, kx, n - 1);
            let cell = ky * self.k + kx;
            let g = d.point(m, n - 1, ky, kx);
            lemma_cell(p, self.oc, n - 1, self.x.c, ky, kx, self.k);
            let wv = self.w[((p * self.x.c + (n - 1)) * self.k + ky) * self.k + kx];
            assert(finite(wv));
            lemma_flat(y, self.x.h, col, self.x.w);
            lemma_flat_cell(ky, kx, self.k, d.at(), hw);
            assert(d.factor(cell) == m.one());
            assert(lands(m, y, ky, self.k / 2));
            assert(lands(m, col, kx, self.k / 2));
            assert(ones_and_zeros(m)) by {
                reveal(acts_plainly);
            }
            lemma_sample_at(m, g);
            assert(g.row(m) == q.row(ky) && g.column(m) == q.column(kx));
            if 0 <= q.row(ky) < self.x.h && 0 <= q.column(kx) < self.x.w {
                lemma_flat(q.row(ky), self.x.h, q.column(kx), self.x.w);
                let s = q.row(ky) * self.x.w + q.column(kx);
                lemma_flat(n - 1, self.x.c, s, hw);
                let v = self.x.data[(n - 1) * hw + s];
                assert(finite(v));
                lemma_adds(m, finite, sums, before, wv, v);
            } else {
                lemma_adds(m, finite, sums, before, wv, wv);
            }
        }
    }

    proof fn lemma_columns(
        self,
        m: Arith<T>,
        finite: spec_fn(T) -> bool,
        sums: spec_fn(T) -> bool,
        p: int,
        y: int,
        col: int,
        start: T,
        ky: int,
        n: int,
    )
        requires
            self.holds(m, finite, sums),
            sums(start),
            0 <= p < self.oc,
            0 <= y < self.x.h,
            0 <= col < self.x.w,
            0 <= ky < self.k,
            0 <= n <= self.k,
        ensures
            sums(self.moved(p, y, col).over_columns(m, start, ky, n)),
            self.moved(p, y, col).over_columns(m, start, ky, n) == (if 0 <= self.still(
                p,
                y,
                col,
            ).row(ky) < self.x.h {
                self.still(p, y, col).over_columns(m, start, ky, n)
            } else {
                start
            }),
        decreases n,
    {
        if n > 0 {
            self.lemma_columns(m, finite, sums, p, y, col, start, ky, n - 1);
            let d = self.moved(p, y, col);
            let before = d.over_columns(m, start, ky, n - 1);
            self.lemma_planes(m, finite, sums, p, y, col, before, ky, n - 1, self.x.c);
            lemma_flat(y, self.x.h, col, self.x.w);
            lemma_flat_cell(ky, n - 1, self.k, d.at(), self.x.hw());
            assert(d.factor(ky * self.k + (n - 1)) == m.one());
            assert(ones_and_zeros(m)) by {
                reveal(acts_plainly);
            }
        }
    }

    proof fn lemma_rows(
        self,
        m: Arith<T>,
        finite: spec_fn(T) -> bool,
        sums: spec_fn(T) -> bool,
        p: int,
        y: int,
        col: int,
        n: int,
    )
        requires
            self.holds(m, finite, sums),
            0 <= p < self.oc,
            0 <= y < self.x.h,
            0 <= col < self.x.w,
            0 <= n <= self.k,
        ensures
            sums(self.moved(p, y, col).over_rows(m, n)),
            self.moved(p, y, col).over_rows(m, n) == self.still(p, y, col).over_rows(m, n),
        decreases n,
    {
        if n <= 0 {
            reveal(acts_plainly);
        } else {
            self.lemma_rows(m, finite, sums, p, y, col, n - 1);
            let before = self.moved(p, y, col).over_rows(m, n - 1);
            self.lemma_columns(m, finite, sums, p, y, col, before, n - 1, self.k);
        }
    }
}

/// Without deformation, with all offsets 0 and all factors 1, the deformable convolution is the
/// plain one with zero padding of half the kernel. So it is for every table in which 0 and 1 act
/// as such on the numbers at hand.
pub proof fn lemma_undeformed<T>(
    m: Arith<T>,
    finite: spec_fn(T) -> bool,
    sums: spec_fn(T) -> bool,
    u: Undeformed<T>,
)
    requires
        u.holds(m, finite, sums),
    ensures
        deform_spec(m, u.x, u.offset, u.mask, u.w, u.oc, u.k, u.k / 2) == conv_kxk_spec(
            m,
            u.x,
            u.w,
            u.oc,
            u.x.c,
            u.k,
            None,
        ),
{
    let x = u.x;
    let f = |p: int, s: int| u.moved(p, s / x.w, s % x.w).over_rows(m, u.k);
    let g = |p: int, s: int| u.still(p, s / x.w, s % x.w).over_rows(m, u.k);
    assert forall|p: int, s: int| 0 <= p < u.oc && 0 <= s < x.h * x.w implies #[trigger] f(p, s)
        == g(p, s) by {
        lemma_split(s, x.h, x.w);
        u.lemma_rows(m, finite, sums, p, s / x.w, s % x.w, u.k);
    }
    assert(0 <= x.h * x.w) by (nonlinear_arith)
        requires
            0 <= x.h,
            0 <= x.w,
    ;
    lemma_planes_eq(u.oc, x.h, x.w, f, g);
    let a = deform_spec(m, x, u.offset, u.mask, u.w, u.oc, u.k, u.k / 2);
    let b = conv_kxk_spec(m, x, u.w, u.oc, x.c, u.k, None);
    assert(a.data =~= planes(u.oc, x.h, x.w, f).data);
    assert(b.data =~= planes(u.oc, x.h, x.w, g).data);
}

} // verus!
