//! What the parts of the decoder do in exact arithmetic.

use crate::conv::{conv1x1_spec, conv_kxk_spec};
use crate::deform::Deform;
use crate::exact_deform::{cell_adds, lemma_cell_moves, lemma_deform};
use crate::exact_maps::{
    convolved, elements, lemma_conv1x1, lemma_conv_kxk, lemma_convolved_same,
    lemma_resize_keeps_constants, place,
};
use crate::exact_pointwise::{lemma_affine_at, lemma_factor, lemma_sigmoid};
use crate::graph::{
    factor_of, relu_all, AsppBranch, AsppDeformable, BasicDecBlk, DeformConv, GdtConv, SimpleConvs,
};
use crate::layout::cat_spec;
use crate::pointwise::{affine_spec, each, pooled, relu_of, sigmoid_of};
use crate::reals::{exact, lemma_plain_numbers, lemma_total_same, total};
use crate::scalar::{Arith, Scalar};
use crate::tensor::{lemma_planes_at, Img};
use vstd::prelude::*;

verus! {

/// The larger of the number and 0.
pub open spec fn above_zero(a: real) -> real {
    if a < 0real {
        0real
    } else {
        a
    }
}

/// The data fill the dimensions.
spec fn full<T>(x: Img<T>) -> bool {
    x.data.len() == x.c * (x.h * x.w)
}

proof fn lemma_each_at<T>(x: Img<T>, f: spec_fn(T) -> T, p: int, y: int, col: int)
    requires
        full(x),
        x.has(p, y, col),
    ensures
        each(x, f).at(p, y, col) == f(x.at(p, y, col)),
{
    lemma_planes_at(x.c, x.h, x.w, |a: int, b: int| x.data[0], p, y, col);
}

proof fn lemma_size(c: int, h: int, w: int)
    requires
        0 <= c,
        0 <= h,
        0 <= w,
    ensures
        0 <= c * (h * w),
{
    assert(0 <= c * (h * w)) by (nonlinear_arith)
        requires
            0 <= c,
            0 <= h,
            0 <= w,
    ;
}

/// Scale, shift and ReLU, as an element comes to see them.
proof fn lemma_scaled_above_zero<T>(
    m: Arith<T>,
    v: spec_fn(T) -> real,
    x: Img<T>,
    scale: Seq<T>,
    shift: Seq<T>,
    p: int,
    y: int,
    col: int,
)
    requires
        exact(m, v),
        full(x),
        x.has(p, y, col),
    ensures
        v(relu_all(m, affine_spec(m, x, scale, shift)).at(p, y, col)) == above_zero(
            v(x.at(p, y, col)) * v(scale[p]) + v(shift[p]),
        ),
{
    lemma_affine_at(m, v, x, scale, shift, p, y, col);
    let a = affine_spec(m, x, scale, shift);
    lemma_each_at(a, |b: T| relu_of(m, b), p, y, col);
    lemma_plain_numbers(m, v);
}

impl<T: Scalar> DeformConv<T> {
    /// How far a kernel cell moves at a position is what the convolution for the offsets gives
    /// there.
    pub proof fn lemma_offsets(
        self,
        m: Arith<T>,
        v: spec_fn(T) -> real,
        x: Img<T>,
        p: int,
        y: int,
        col: int,
    )
        requires
            exact(m, v),
            0 <= p < 2 * (self.k * self.k),
            0 <= y < x.h,
            0 <= col < x.w,
        ensures
            v(self.offsets(m, x).at(p, y, col)) == convolved(
                v,
                elements(v, x),
                self.offset_w@,
                self.ic as int,
                self.k as int,
                Some(self.offset_b@),
                p,
                y,
                col,
            ),
    {
        lemma_conv_kxk(
            m,
            v,
            x,
            self.offset_w@,
            2 * (self.k * self.k),
            self.ic as int,
            self.k as int,
            Some(self.offset_b@),
            p,
            y,
            col,
        );
    }

    /// How much a kernel cell counts at a position is the number between 0 and 2 whose odds
    /// against the rest of 2 are the exponential of what the modulator gives there, `given`: it
    /// counts more the more the modulator gives.
    pub proof fn lemma_factors(
        self,
        m: Arith<T>,
        v: spec_fn(T) -> real,
        x: Img<T>,
        cell: int,
        y: int,
        col: int,
        given: T,
    )
        requires
            exact(m, v),
            0 <= cell < self.k * self.k,
            0 <= y < x.h,
            0 <= col < x.w,
            v(given) == convolved(
                v,
                elements(v, x),
                self.modulator_w@,
                self.ic as int,
                self.k as int,
                Some(self.modulator_b@),
                cell,
                y,
                col,
            ),
        ensures
            0real < v(self.factors(m, x).at(cell, y, col)) < 2real,
            v(self.factors(m, x).at(cell, y, col)) == (2real - v(
                self.factors(m, x).at(cell, y, col),
            )) * v((m.exponential)(given)),
    {
        let kk = self.k * self.k;
        let c = conv_kxk_spec(
            m,
            x,
            self.modulator_w@,
            kk,
            self.ic as int,
            self.k as int,
            Some(self.modulator_b@),
        );
        lemma_conv_kxk(
            m,
            v,
            x,
            self.modulator_w@,
            kk,
            self.ic as int,
            self.k as int,
            Some(self.modulator_b@),
            cell,
            y,
            col,
        );
        lemma_size(kk, x.h, x.w);
        lemma_each_at(c, |a: T| factor_of(m, a), cell, y, col);
        let a = c.at(cell, y, col);
        lemma_factor(m, v, a, a, 1real);
        assert(v(a) == v(given));
        assert(v((m.exponential)(a)) == v((m.exponential)(given)));
    }
}

impl<T: Scalar> DeformConv<T> {
    /// An element of the convolution is the sum over the cells of the kernel and the planes of
    /// the weight, times how much the cell counts at this position, times the sample of the plane
    /// where the cell is moved to: `ky - pad` rows down and `kx - pad` columns to the right, and
    /// from there by what the offsets of the cell hold at this position, the first of the two
    /// down and the second to the right.
    pub proof fn lemma_deform_conv(
        self,
        m: Arith<T>,
        v: spec_fn(T) -> real,
        x: Img<T>,
        p: int,
        y: int,
        col: int,
        ci: int,
        ky: int,
        kx: int,
        d: Deform<T>,
    )
        requires
            exact(m, v),
            0 <= p < self.oc,
            0 <= y < x.h <= usize::MAX,
            0 <= col < x.w <= usize::MAX,
            0 <= ky < self.k,
            0 <= kx < self.k,
            d == (Deform {
                x,
                offset: self.offsets(m, x).data,
                mask: self.factors(m, x).data,
                w: self.regular_w@,
                k: self.k as int,
                pad: self.pad as int,
                p,
                y,
                col,
            }),
        ensures
            v(self.out(m, x).at(p, y, col)) == total(
                |a: int|
                    total(|b: int| total(|c: int| cell_adds(m, v, d, a, b, c), x.c), self.k as int),
                self.k as int,
            ),
            cell_adds(m, v, d, ky, kx, ci) == (v(
                self.regular_w@[((p * x.c + ci) * self.k + ky) * self.k + kx],
            ) * v(self.factors(m, x).at(ky * self.k + kx, y, col))) * v(
                d.point(m, ci, ky, kx).sample(m),
            ),
            v(d.point(m, ci, ky, kx).y) == (y + ky - self.pad) as real + v(
                self.offsets(m, x).at(2 * (ky * self.k + kx), y, col),
            ),
            v(d.point(m, ci, ky, kx).x) == (col + kx - self.pad) as real + v(
                self.offsets(m, x).at(2 * (ky * self.k + kx) + 1, y, col),
            ),
    {
        lemma_deform(m, v, d, self.oc as int);
        lemma_cell_moves(m, v, d, ci, ky, kx);
        reveal(cell_adds);
        let k = self.k as int;
        let f = |a: int| total(|b: int| total(|c: int| cell_adds(m, v, d, a, b, c), d.x.c), d.k);
        let g = |a: int| total(|b: int| total(|c: int| cell_adds(m, v, d, a, b, c), x.c), k);
        assert forall|a: int| 0 <= a < k implies #[trigger] f(a) == g(a) by {
            lemma_total_same(
                |b: int| total(|c: int| cell_adds(m, v, d, a, b, c), d.x.c),
                |b: int| total(|c: int| cell_adds(m, v, d, a, b, c), x.c),
                k,
            );
        }
        lemma_total_same(f, g, k);
    }
}

impl<T: Scalar> AsppBranch<T> {
    /// A branch gives what its convolution gives, scaled and shifted plane by plane, and 0 for
    /// what is below 0.
    pub proof fn lemma_branch(
        self,
        m: Arith<T>,
        v: spec_fn(T) -> real,
        x: Img<T>,
        p: int,
        y: int,
        col: int,
    )
        requires
            exact(m, v),
            0 <= p < self.conv.oc,
            0 <= y < x.h,
            0 <= col < x.w,
        ensures
            v(self.out(m, x).at(p, y, col)) == above_zero(
                v(self.conv.out(m, x).at(p, y, col)) * v(self.bn.scale@[p]) + v(self.bn.shift@[p]),
            ),
    {
        lemma_size(self.conv.oc as int, x.h, x.w);
        lemma_scaled_above_zero(
            m,
            v,
            self.conv.out(m, x),
            self.bn.scale@,
            self.bn.shift@,
            p,
            y,
            col,
        );
    }
}

impl<T: Scalar> AsppDeformable<T> {
    /// The branch for the whole plane gives the same at every position: the sum over the planes
    /// of their means, each times its weight, scaled and shifted, and 0 for what is below 0.
    pub proof fn lemma_gap(
        self,
        m: Arith<T>,
        v: spec_fn(T) -> real,
        x: Img<T>,
        p: int,
        y: int,
        col: int,
    )
        requires
            exact(m, v),
            0 < x.c,
            0 <= p < self.gap_conv_w@.len() as int / x.c,
            self.gap_conv_w@.len() <= usize::MAX,
            0 <= y < x.h <= usize::MAX,
            0 <= col < x.w <= usize::MAX,
        ensures
            v(self.gap(m, x).at(p, y, col)) == above_zero(
                total(|k: int| v(self.gap_conv_w@[p * x.c + k]) * v(pooled(m, x)[k]), x.c) * v(
                    self.gap_bn.scale@[p],
                ) + v(self.gap_bn.shift@[p]),
            ),
    {
        let n = self.gap_planes(x.c);
        let g = Img { c: x.c, h: 1, w: 1, data: pooled(m, x) };
        let w = self.gap_conv_w@;
        let mapped = conv1x1_spec(m, g, w, n, x.c, None);
        lemma_conv1x1(m, v, g, w, n, x.c, None, p, 0, 0);
        lemma_total_same(
            |k: int| v(w[p * x.c + k]) * v(g.at(k, 0, 0)),
            |k: int| v(w[p * x.c + k]) * v(pooled(m, x)[k]),
            x.c,
        );
        lemma_size(n, 1, 1);
        lemma_scaled_above_zero(m, v, mapped, self.gap_bn.scale@, self.gap_bn.shift@, p, 0, 0);
        let y0 = relu_all(m, self.gap_bn.out(m, mapped));
        let a = v(y0.at(p, 0, 0));
        assert forall|r: int, c: int| y0.has(p, r, c) implies v(#[trigger] y0.at(p, r, c)) == a by {
            assert(r == 0 && c == 0);
        }
        assert(n <= w.len()) by (nonlinear_arith)
            requires
                n == w.len() as int / x.c,
                0 < x.c,
        ;
        assert(0 <= n) by (nonlinear_arith)
            requires
                n == w.len() as int / x.c,
                0 < x.c,
        ;
        assert(y0.c * (y0.h * y0.w) == n && y0.h * y0.w == 1) by (nonlinear_arith)
            requires
                y0.c == n,
                y0.h == 1,
                y0.w == 1,
        ;
        lemma_single_place(y, x.h);
        lemma_single_place(col, x.w);
        lemma_resize_keeps_constants(m, v, y0, x.h, x.w, true, p, y, col, 0, 0, a);
    }

    /// The pyramid gives, at every position, the sum over the planes of its five branches at that
    /// very position, each times its weight, scaled and shifted, and 0 for what is below 0. The
    /// branches come in this order: the plain one, those of growing reach, the whole plane.
    pub proof fn lemma_pyramid(
        self,
        m: Arith<T>,
        v: spec_fn(T) -> real,
        x: Img<T>,
        all: Img<T>,
        p: int,
        y: int,
        col: int,
    )
        requires
            exact(m, v),
            self.deforms@.len() == 3,
            all == cat_spec(
                seq![
                    self.aspp1.out(m, x),
                    self.deforms@[0].out(m, x),
                    self.deforms@[1].out(m, x),
                    self.deforms@[2].out(m, x),
                    self.gap(m, x),
                ],
            ),
            0 <= p < self.oc,
            0 <= y < x.h,
            0 <= col < x.w,
        ensures
            v(self.out(m, x).at(p, y, col)) == above_zero(
                total(|q: int| v(self.conv1_w@[p * all.c + q]) * v(all.at(q, y, col)), all.c) * v(
                    self.bn1.scale@[p],
                ) + v(self.bn1.shift@[p]),
            ),
    {
        assert(self.branches(m, x) =~= seq![
            self.aspp1.out(m, x),
            self.deforms@[0].out(m, x),
            self.deforms@[1].out(m, x),
            self.deforms@[2].out(m, x),
            self.gap(m, x),
        ]);
        assert(all.h == x.h && all.w == x.w);
        lemma_conv1x1(m, v, all, self.conv1_w@, self.oc as int, all.c, None, p, y, col);
        lemma_size(self.oc as int, x.h, x.w);
        let c = conv1x1_spec(m, all, self.conv1_w@, self.oc as int, all.c, None);
        lemma_scaled_above_zero(m, v, c, self.bn1.scale@, self.bn1.shift@, p, y, col);
    }
}

/// A single position is the place of every position.
proof fn lemma_single_place(at: int, to: int)
    requires
        0 <= at < to,
    ensures
        0real <= place(at, 1, to, true) < 0real + 1real,
        place(at, 1, to, true) == 0real,
{
    if to > 1 {
        let (a, q) = (at as real, (to - 1) as real);
        assert(a * (0real / q) == 0real) by (nonlinear_arith)
            requires
                q > 0real,
        ;
    }
}

impl<T: Scalar> BasicDecBlk<T> {
    /// What goes into the pyramid is the 3 by 3 convolution of what comes in, scaled and shifted,
    /// and 0 for what is below 0.
    pub proof fn lemma_middle(
        self,
        m: Arith<T>,
        v: spec_fn(T) -> real,
        x: Img<T>,
        p: int,
        y: int,
        col: int,
    )
        requires
            exact(m, v),
            0 <= p < self.ic_mid,
            0 <= y < x.h,
            0 <= col < x.w,
        ensures
            v(self.middle(m, x).at(p, y, col)) == above_zero(
                convolved(
                    v,
                    elements(v, x),
                    self.conv_in_w@,
                    self.ic as int,
                    3,
                    Some(self.conv_in_b@),
                    p,
                    y,
                    col,
                ) * v(self.bn_in.scale@[p]) + v(self.bn_in.shift@[p]),
            ),
    {
        let (mid, ic) = (self.ic_mid as int, self.ic as int);
        let c = conv_kxk_spec(m, x, self.conv_in_w@, mid, ic, 3, Some(self.conv_in_b@));
        lemma_conv_kxk(m, v, x, self.conv_in_w@, mid, ic, 3, Some(self.conv_in_b@), p, y, col);
        lemma_size(mid, x.h, x.w);
        lemma_scaled_above_zero(m, v, c, self.bn_in.scale@, self.bn_in.shift@, p, y, col);
    }

    /// A block gives the 3 by 3 convolution of what the pyramid gives, scaled and shifted.
    pub proof fn lemma_block(
        self,
        m: Arith<T>,
        v: spec_fn(T) -> real,
        x: Img<T>,
        p: int,
        y: int,
        col: int,
    )
        requires
            exact(m, v),
            0 <= p < self.oc,
            0 <= y < x.h,
            0 <= col < x.w,
        ensures
            v(self.out(m, x).at(p, y, col)) == convolved(
                v,
                elements(v, self.aspp.out(m, self.middle(m, x))),
                self.conv_out_w@,
                self.ic_mid as int,
                3,
                Some(self.conv_out_b@),
                p,
                y,
                col,
            ) * v(self.bn_out.scale@[p]) + v(self.bn_out.shift@[p]),
    {
        let (oc, mid) = (self.oc as int, self.ic_mid as int);
        let z = self.aspp.out(m, self.middle(m, x));
        assert(z.h == x.h && z.w == x.w);
        let c = conv_kxk_spec(m, z, self.conv_out_w@, oc, mid, 3, Some(self.conv_out_b@));
        lemma_conv_kxk(m, v, z, self.conv_out_w@, oc, mid, 3, Some(self.conv_out_b@), p, y, col);
        lemma_size(oc, x.h, x.w);
        lemma_affine_at(m, v, c, self.bn_out.scale@, self.bn_out.shift@, p, y, col);
    }
}

impl<T: Scalar> SimpleConvs<T> {
    /// The two convolutions on the image follow one another.
    pub proof fn lemma_convolutions(
        self,
        m: Arith<T>,
        v: spec_fn(T) -> real,
        x: Img<T>,
        p: int,
        y: int,
        col: int,
    )
        requires
            exact(m, v),
            0 <= p < self.oc,
            0 <= y < x.h,
            0 <= col < x.w,
        ensures
            v(self.out(m, x).at(p, y, col)) == convolved(
                v,
                |q: int, a: int, b: int|
                    if 0 <= a < x.h && 0 <= b < x.w {
                        convolved(
                            v,
                            elements(v, x),
                            self.c1w@,
                            self.ic as int,
                            3,
                            Some(self.c1b@),
                            q,
                            a,
                            b,
                        )
                    } else {
                        0real
                    },
                self.cow@,
                64,
                3,
                Some(self.cob@),
                p,
                y,
                col,
            ),
    {
        let ic = self.ic as int;
        let mid = conv_kxk_spec(m, x, self.c1w@, 64, ic, 3, Some(self.c1b@));
        lemma_conv_kxk(
            m,
            v,
            mid,
            self.cow@,
            self.oc as int,
            64,
            3,
            Some(self.cob@),
            p,
            y,
            col,
        );
        let src = elements(v, mid);
        let other = |q: int, a: int, b: int|
            if 0 <= a < x.h && 0 <= b < x.w {
                convolved(v, elements(v, x), self.c1w@, ic, 3, Some(self.c1b@), q, a, b)
            } else {
                0real
            };
        assert forall|q: int, a: int, b: int| 0 <= q < 64 implies #[trigger] src(q, a, b) == other(
            q,
            a,
            b,
        ) by {
            if 0 <= a < x.h && 0 <= b < x.w {
                lemma_conv_kxk(m, v, x, self.c1w@, 64, ic, 3, Some(self.c1b@), q, a, b);
            }
        }
        lemma_convolved_same(v, src, other, self.cow@, 64, 3, Some(self.cob@), p, y, col);
    }
}

impl<T: Scalar> GdtConv<T> {
    /// How much a position counts is the number between 0 and 1 whose odds are the exponential of
    /// `given`: the sum over sixteen planes, each the 3 by 3 convolution of the features, scaled
    /// and shifted and 0 for what is below 0, times its weight, plus the bias.
    pub proof fn lemma_gate(
        self,
        m: Arith<T>,
        v: spec_fn(T) -> real,
        p: Img<T>,
        y: int,
        col: int,
        given: T,
    )
        requires
            exact(m, v),
            0 <= y < p.h,
            0 <= col < p.w,
            v(given) == total(
                |k: int|
                    v(self.attn_w@[k]) * above_zero(
                        convolved(
                            v,
                            elements(v, p),
                            self.w@,
                            self.ic as int,
                            3,
                            Some(self.b@),
                            k,
                            y,
                            col,
                        ) * v(self.bn.scale@[k]) + v(self.bn.shift@[k]),
                    ),
                16,
            ) + v(self.attn_b@[0]),
        ensures
            0real < v(self.out(m, p).at(0, y, col)) < 1real,
            v(self.out(m, p).at(0, y, col)) == (1real - v(self.out(m, p).at(0, y, col))) * v(
                (m.exponential)(given),
            ),
    {
        let ic = self.ic as int;
        let c = conv_kxk_spec(m, p, self.w@, 16, ic, 3, Some(self.b@));
        let g = relu_all(m, self.bn.out(m, c));
        let a = conv1x1_spec(m, g, self.attn_w@, 1, 16, Some(self.attn_b@));
        lemma_conv1x1(m, v, g, self.attn_w@, 1, 16, Some(self.attn_b@), 0, y, col);
        let f = |k: int| v(self.attn_w@[0 * 16 + k]) * v(g.at(k, y, col));
        let want = |k: int|
            v(self.attn_w@[k]) * above_zero(
                convolved(v, elements(v, p), self.w@, ic, 3, Some(self.b@), k, y, col) * v(
                    self.bn.scale@[k],
                ) + v(self.bn.shift@[k]),
            );
        lemma_size(16, p.h, p.w);
        assert forall|k: int| 0 <= k < 16 implies #[trigger] f(k) == want(k) by {
            lemma_conv_kxk(m, v, p, self.w@, 16, ic, 3, Some(self.b@), k, y, col);
            lemma_scaled_above_zero(m, v, c, self.bn.scale@, self.bn.shift@, k, y, col);
        }
        lemma_total_same(f, want, 16);
        lemma_size(1, p.h, p.w);
        lemma_each_at(a, |b: T| sigmoid_of(m, b), 0, y, col);
        let t = a.at(0, y, col);
        lemma_sigmoid(m, v, t, t);
        assert(v(t) == v(given));
        assert(v((m.exponential)(t)) == v((m.exponential)(given)));
    }
}

} // verus!
