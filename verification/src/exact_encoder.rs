//! What the backbone and the encoder do in exact arithmetic.

use crate::backbone::{dim_of, normed};
use crate::conv::conv4x4_stride4_spec;
use crate::encoder::halved;
use crate::exact_decoder::lemma_two_together;
use crate::exact_maps::{between, lemma_resize, place};
use crate::exact_pointwise::lemma_layer_norm;
use crate::index::{lemma_flat, lemma_unflat};
use crate::layout::{cat_c, cat_fits, image_of, lemma_cat_plane, tokens_of};
use crate::linear::LN_EPS;
use crate::model::Rmbg;
use crate::reals::{exact, lemma_plain_numbers, lemma_total_same, total};
use crate::resize::resize_spec;
use crate::scalar::{Arith, Scalar};
use crate::tensor::{dims_fit, lemma_planes_at, Img};
use vstd::prelude::*;

verus! {

// ---- planes and tokens ----------------------------------------------------------------

/// The token of row `y` and column `col` holds, one behind the other, the elements of all planes
/// at that very position, and so the image of tokens holds at every position what its token
/// holds.
pub proof fn lemma_tokens_by_position<T>(
    x: Img<T>,
    t: Seq<T>,
    c: int,
    h: int,
    w: int,
    p: int,
    y: int,
    col: int,
)
    requires
        x.c == c,
        x.h == h,
        x.w == w,
        x.data.len() == c * (h * w),
        0 <= p < c,
        0 <= y < h,
        0 <= col < w,
    ensures
        tokens_of(x)[(y * w + col) * c + p] == x.at(p, y, col),
        image_of(t, c, h, w).at(p, y, col) == t[(y * w + col) * c + p],
{
    lemma_planes_at(c, h, w, |p: int, s: int| t[s * c + p], p, y, col);
    lemma_flat(y, h, col, w);
    let r = y * w + col;
    lemma_flat(r, h * w, p, c);
    lemma_unflat(r, p, c);
    assert(c * (h * w) == (h * w) * c) by (nonlinear_arith);
}

// ---- the backbone ---------------------------------------------------------------------

/// `mean` and `root` are the mean of `c` numbers and the root of their variance with the least
/// divisor added.
pub open spec fn are_moments<T>(
    m: Arith<T>,
    v: spec_fn(T) -> real,
    f: spec_fn(int) -> real,
    c: int,
    mean: real,
    root: real,
) -> bool {
    &&& mean * c as real == total(f, c)
    &&& root > 0real
    &&& (root * root - v((m.bits)(LN_EPS))) * c as real == total(
        |k: int| (f(k) - mean) * (f(k) - mean),
        c,
    )
}

/// Layer norm of one row of features, over its moments.
proof fn lemma_normed<T>(
    m: Arith<T>,
    v: spec_fn(T) -> real,
    t: Seq<T>,
    c: int,
    w: Seq<T>,
    b: Seq<T>,
    r: int,
    i: int,
    f: spec_fn(int) -> real,
    mean: real,
    root: real,
)
    requires
        exact(m, v),
        0 < c <= usize::MAX,
        0 <= r,
        (r + 1) * c <= t.len(),
        0 <= i < c,
        forall|k: int| 0 <= k < c ==> #[trigger] f(k) == v(t[r * c + k]),
        are_moments(m, v, f, c, mean, root),
    ensures
        v(normed(m, t, c, w, b)[r * c + i]) == (f(i) - mean) / root * v(w[i]) + v(b[i]),
{
    lemma_plain_numbers(m, v);
    let n = t.len() as int / c;
    vstd::arithmetic::div_mod::lemma_fundamental_div_mod(t.len() as int, c);
    assert(r < n && n * c <= t.len()) by (nonlinear_arith)
        requires
            t.len() == c * n + t.len() as int % c,
            0 <= t.len() as int % c < c,
            (r + 1) * c <= t.len(),
            0 < c,
    ;
    let g = |k: int| v(t[r * c + k]);
    lemma_total_same(f, g, c);
    lemma_total_same(
        |k: int| (f(k) - mean) * (f(k) - mean),
        |k: int| (v(t[r * c + k]) - mean) * (v(t[r * c + k]) - mean),
        c,
    );
    lemma_layer_norm(m, v, t, n, c, w, b, (m.bits)(LN_EPS), r, i, mean, root);
    assert(f(i) == v(t[r * c + i]));
}

impl<T: Scalar> Rmbg<T> {
    /// The features that an image is cut into: those of patch `(y, col)` are what the convolution
    /// of the patch gives, normalised over the features of the patch.
    pub proof fn lemma_embedded(
        self,
        m: Arith<T>,
        v: spec_fn(T) -> real,
        x: Img<T>,
        y: int,
        col: int,
        i: int,
        mean: real,
        root: real,
    )
        requires
            exact(m, v),
            0 <= y < x.h / 4,
            0 <= col < x.w / 4,
            0 <= i < 192,
            ({
                let c = conv4x4_stride4_spec(m, x, self.proj_w@, 192, 3, Some(self.proj_b@));
                are_moments(m, v, |k: int| v(c.at(k, y, col)), 192, mean, root)
            }),
        ensures
            v(self.embedded(m, x)[(y * (x.w / 4) + col) * 192 + i]) == (v(
                conv4x4_stride4_spec(m, x, self.proj_w@, 192, 3, Some(self.proj_b@)).at(i, y, col),
            ) - mean) / root * v(self.pe_norm_w@[i]) + v(self.pe_norm_b@[i]),
    {
        let c = conv4x4_stride4_spec(m, x, self.proj_w@, 192, 3, Some(self.proj_b@));
        let (h, w) = (x.h / 4, x.w / 4);
        let f = |k: int| v(c.at(k, y, col));
        let t = tokens_of(c);
        let r = y * w + col;
        lemma_flat(y, h, col, w);
        assert(0 <= 192 * (h * w) && (r + 1) * 192 <= 192 * (h * w)) by (nonlinear_arith)
            requires
                0 <= r < h * w,
        ;
        assert forall|k: int| 0 <= k < 192 implies #[trigger] f(k) == v(t[r * 192 + k]) by {
            lemma_tokens_by_position(c, t, 192, h, w, k, y, col);
        }
        lemma_normed(m, v, t, 192, self.pe_norm_w@, self.pe_norm_b@, r, i, f, mean, root);
    }

    /// The feature map of stage `s` holds at every position what the blocks of the stage give for
    /// that position, normalised over its features.
    pub proof fn lemma_feature(
        self,
        m: Arith<T>,
        v: spec_fn(T) -> real,
        x: Img<T>,
        s: int,
        y: int,
        col: int,
        p: int,
        out: Seq<T>,
        mean: real,
        root: real,
    )
        requires
            exact(m, v),
            0 <= s < 4,
            0 <= y < self.entering(m, x, s).h,
            0 <= col < self.entering(m, x, s).w,
            0 <= p < dim_of(s),
            out == self.stages@[s].out(
                m,
                self.entering(m, x, s).tokens,
                self.entering(m, x, s).h,
                self.entering(m, x, s).w,
            ),
            (self.entering(m, x, s).h * self.entering(m, x, s).w) * dim_of(s) <= out.len(),
            are_moments(
                m,
                v,
                |k: int| v(out[(y * self.entering(m, x, s).w + col) * dim_of(s) + k]),
                dim_of(s),
                mean,
                root,
            ),
        ensures
            self.feature(m, x, s).c == dim_of(s),
            v(self.feature(m, x, s).at(p, y, col)) == (v(
                out[(y * self.entering(m, x, s).w + col) * dim_of(s) + p],
            ) - mean) / root * v(self.norm_w@[s]@[p]) + v(self.norm_b@[s]@[p]),
    {
        reveal(Rmbg::feature);
        let g = self.entering(m, x, s);
        let c = dim_of(s);
        let (h, w) = (g.h as int, g.w as int);
        let r = y * w + col;
        lemma_flat(y, h, col, w);
        assert((r + 1) * c <= (h * w) * c) by (nonlinear_arith)
            requires
                0 <= r < h * w,
                0 <= c,
        ;
        let t = normed(m, out, c, self.norm_w@[s]@, self.norm_b@[s]@);
        lemma_planes_at(c, h, w, |p: int, s: int| t[s * c + p], p, y, col);
        let f = |k: int| v(out[(y * g.w + col) * c + k]);
        lemma_normed(
            m,
            v,
            out,
            c,
            self.norm_w@[s]@,
            self.norm_b@[s]@,
            r,
            p,
            f,
            mean,
            root,
        );
    }

    /// The first stage works on the patches of the image, and each further stage on what the one
    /// before it hands on, with half as many rows and columns, rounded up.
    pub proof fn lemma_stages_in_turn(self, m: Arith<T>, x: Img<T>, s: int)
        requires
            0 <= x.h <= usize::MAX,
            0 <= x.w <= usize::MAX,
            0 <= s < 3,
            self.stages@[s].steps_down(),
            self.entering(m, x, s).h < usize::MAX,
            self.entering(m, x, s).w < usize::MAX,
        ensures
            self.entering(m, x, 0).tokens == self.embedded(m, x),
            self.entering(m, x, 0).h == x.h / 4,
            self.entering(m, x, 0).w == x.w / 4,
            self.entering(m, x, s + 1).tokens == self.stages@[s].down(
                m,
                self.entering(m, x, s).tokens,
                self.entering(m, x, s).h,
                self.entering(m, x, s).w,
                1,
            ),
            self.entering(m, x, s + 1).h == (self.entering(m, x, s).h + 1) / 2,
            self.entering(m, x, s + 1).w == (self.entering(m, x, s).w + 1) / 2,
    {
    }

    // ---- the encoder ------------------------------------------------------------------

    /// The features of stage `s` are those of the image, and behind them those of the image at
    /// half its size, brought back to the same size.
    pub proof fn lemma_lateral(
        self,
        m: Arith<T>,
        v: spec_fn(T) -> real,
        x: Img<T>,
        s: int,
        p: int,
        y: int,
        col: int,
        y0: int,
        x0: int,
    )
        requires
            exact(m, v),
            self.feature(m, x, s).wf(),
            self.feature(m, halved(m, x), s).wf(),
            1 <= self.feature(m, halved(m, x), s).h,
            1 <= self.feature(m, halved(m, x), s).w,
            dims_fit(
                self.feature(m, x, s).c + self.feature(m, halved(m, x), s).c,
                self.feature(m, x, s).h,
                self.feature(m, x, s).w,
            ),
            0 <= p < self.feature(m, halved(m, x), s).c,
            0 <= y < self.feature(m, x, s).h,
            0 <= col < self.feature(m, x, s).w,
            y0 as real <= place(
                y,
                self.feature(m, halved(m, x), s).h,
                self.feature(m, x, s).h,
                true,
            ) < y0 as real + 1real,
            x0 as real <= place(
                col,
                self.feature(m, halved(m, x), s).w,
                self.feature(m, x, s).w,
                true,
            ) < x0 as real + 1real,
        ensures
            ({
                let full = self.feature(m, x, s);
                let small = self.feature(m, halved(m, x), s);
                let y1 = if y0 + 1 < small.h {
                    y0 + 1
                } else {
                    y0
                };
                let x1 = if x0 + 1 < small.w {
                    x0 + 1
                } else {
                    x0
                };
                &&& self.lateral(m, x, s).c == full.c + small.c
                &&& self.lateral(m, x, s).h == full.h
                &&& self.lateral(m, x, s).w == full.w
                &&& p < full.c ==> self.lateral(m, x, s).at(p, y, col) == full.at(p, y, col)
                &&& v(self.lateral(m, x, s).at(full.c + p, y, col)) == between(
                    place(y, small.h, full.h, true) - y0 as real,
                    place(col, small.w, full.w, true) - x0 as real,
                    v(small.at(p, y0, x0)),
                    v(small.at(p, y0, x1)),
                    v(small.at(p, y1, x0)),
                    v(small.at(p, y1, x1)),
                )
            }),
    {
        reveal(Rmbg::lateral);
        let full = self.feature(m, x, s);
        let small = self.feature(m, halved(m, x), s);
        let up = resize_spec(m, small, full.h, full.w, true);
        lemma_resize(m, v, small, full.h, full.w, true, p, y, col, y0, x0);
        assert(dims_fit(up.c, up.h, up.w)) by (nonlinear_arith)
            requires
                dims_fit(full.c + small.c, full.h, full.w),
                0 <= full.c,
                0 <= small.c <= usize::MAX,
                up.c == small.c,
                up.h == full.h,
                up.w == full.w,
        ;
        assert(up.wf());
        lemma_two_together(full, up, full.c + p, y, col);
        if p < full.c {
            lemma_two_together(full, up, p, y, col);
        }
    }

    /// What the encoder hands to the decoder are the features of the three finer stages, and of
    /// the coarsest stage with those of the others in front of them.
    pub proof fn lemma_encoded(
        self,
        m: Arith<T>,
        x: Img<T>,
        a: Img<T>,
        b: Img<T>,
        c: Img<T>,
        s: int,
        q: int,
        y: int,
        col: int,
    )
        requires
            a == resize_spec(
                m,
                self.lateral(m, x, 0),
                self.lateral(m, x, 3).h,
                self.lateral(m, x, 3).w,
                true,
            ),
            b == resize_spec(
                m,
                self.lateral(m, x, 1),
                self.lateral(m, x, 3).h,
                self.lateral(m, x, 3).w,
                true,
            ),
            c == resize_spec(
                m,
                self.lateral(m, x, 2),
                self.lateral(m, x, 3).h,
                self.lateral(m, x, 3).w,
                true,
            ),
            cat_fits(seq![a, b, c, self.lateral(m, x, 3)]),
            0 <= s < 4,
            0 <= q < self.lateral(m, x, s).c,
            0 <= y < self.lateral(m, x, 3).h,
            0 <= col < self.lateral(m, x, 3).w,
        ensures
            self.encoded(m, x).len() == 4,
            s < 3 ==> self.encoded(m, x)[s] == self.lateral(m, x, s),
            self.encoded(m, x)[3].c == self.lateral(m, x, 0).c + self.lateral(m, x, 1).c
                + self.lateral(m, x, 2).c + self.lateral(m, x, 3).c,
            s == 0 ==> self.encoded(m, x)[3].at(q, y, col) == a.at(q, y, col),
            s == 1 ==> self.encoded(m, x)[3].at(a.c + q, y, col) == b.at(q, y, col),
            s == 2 ==> self.encoded(m, x)[3].at(a.c + b.c + q, y, col) == c.at(q, y, col),
            s == 3 ==> self.encoded(m, x)[3].at(a.c + b.c + c.c + q, y, col) == self.lateral(
                m,
                x,
                3,
            ).at(q, y, col),
    {
        reveal(Rmbg::encoded);
        reveal(Rmbg::context);
        let last = self.lateral(m, x, 3);
        let parts = seq![a, b, c, last];
        assert(parts[0] == a && parts[1] == b && parts[2] == c && parts[3] == last);
        reveal_with_fuel(cat_c, 5);
        lemma_flat(y, last.h, col, last.w);
        lemma_cat_plane(parts, s, q, y * last.w + col);
    }
}

} // verus!
