//! What the decoder does in exact arithmetic.

use crate::conv::conv1x1_spec;
use crate::encoder::cat2;
use crate::engine::{tiled, Way};
use crate::exact_maps::{between, lemma_conv1x1, lemma_resize, lemma_resize_to_own_size, place};
use crate::index::lemma_flat;
use crate::layout::{
    cat_c, lemma_cat_plane, lemma_patches_hold_image, patches_fits, patches_spec, steps,
};
use crate::model::Rmbg;
use crate::pointwise::attended;
use crate::reals::{exact, lemma_total_same, lemma_total_split, total};
use crate::resize::resize_spec;
use crate::scalar::{Arith, Scalar};
use crate::tensor::{dims_fit, lemma_planes_at, Img};
use vstd::prelude::*;

verus! {

// ---- putting tensors together ---------------------------------------------------------

/// Of two tensors one behind the other, the planes of the first come first and those of the
/// second after them.
pub proof fn lemma_two_together<T>(a: Img<T>, b: Img<T>, p: int, y: int, x: int)
    requires
        a.wf(),
        b.wf(),
        a.h == b.h,
        a.w == b.w,
        dims_fit(a.c + b.c, a.h, a.w),
        0 <= p < a.c + b.c,
        0 <= y < a.h,
        0 <= x < a.w,
    ensures
        cat2(a, b).c == a.c + b.c,
        cat2(a, b).h == a.h,
        cat2(a, b).w == a.w,
        cat2(a, b).at(p, y, x) == (if p < a.c {
            a.at(p, y, x)
        } else {
            b.at(p - a.c, y, x)
        }),
{
    let parts = seq![a, b];
    reveal_with_fuel(cat_c, 3);
    assert(parts[0] == a && parts[1] == b);
    lemma_flat(y, a.h, x, a.w);
    if p < a.c {
        lemma_cat_plane(parts, 0, p, y * a.w + x);
    } else {
        lemma_cat_plane(parts, 1, p - a.c, y * a.w + x);
    }
}

/// Every plane weighed position by position.
proof fn lemma_attended<T>(
    m: Arith<T>,
    v: spec_fn(T) -> real,
    x: Img<T>,
    gate: Img<T>,
    p: int,
    y: int,
    col: int,
)
    requires
        exact(m, v),
        x.wf(),
        x.has(p, y, col),
        gate.h == x.h,
        gate.w == x.w,
    ensures
        v(attended(m, x, gate.data).at(p, y, col)) == v(x.at(p, y, col)) * v(gate.at(0, y, col)),
{
    lemma_planes_at(x.c, x.h, x.w, |a: int, b: int| x.data[0], p, y, col);
    assert(0 * (gate.h * gate.w) == 0) by (nonlinear_arith);
}

// ---- from one scale to the next -------------------------------------------------------

/// What a scale hands to the finer one at plane `q`, row `y` and column `col`: its own features
/// `p`, each times what `gate` holds at its position, taken between the four positions around
/// the place, plus the sum over the planes of the finer features `lat` at that very position,
/// each times its lateral weight, plus the lateral bias.
pub open spec fn handed_on<T>(
    v: spec_fn(T) -> real,
    p: Img<T>,
    gate: Img<T>,
    lat: Img<T>,
    lw: Seq<T>,
    lb: Seq<T>,
    q: int,
    y: int,
    col: int,
    y0: int,
    x0: int,
) -> real {
    let y1 = if y0 + 1 < p.h {
        y0 + 1
    } else {
        y0
    };
    let x1 = if x0 + 1 < p.w {
        x0 + 1
    } else {
        x0
    };
    between(
        place(y, p.h, lat.h, true) - y0 as real,
        place(col, p.w, lat.w, true) - x0 as real,
        v(p.at(q, y0, x0)) * v(gate.at(0, y0, x0)),
        v(p.at(q, y0, x1)) * v(gate.at(0, y0, x1)),
        v(p.at(q, y1, x0)) * v(gate.at(0, y1, x0)),
        v(p.at(q, y1, x1)) * v(gate.at(0, y1, x1)),
    ) + total(|k: int| v(lw[q * lat.c + k]) * v(lat.at(k, y, col)), lat.c) + v(lb[q])
}

impl<T: Scalar> Rmbg<T> {
    /// What scale `k` hands to the finer one is its own features, as far as its attention counts
    /// them, brought to the size of the finer scale, plus the 1x1 convolution of the features of
    /// the finer scale.
    pub proof fn lemma_passed(
        self,
        m: Arith<T>,
        v: spec_fn(T) -> real,
        k: int,
        p: Img<T>,
        lat: Img<T>,
        lw: Seq<T>,
        lb: Seq<T>,
        q: int,
        y: int,
        col: int,
        y0: int,
        x0: int,
    )
        requires
            exact(m, v),
            p.wf(),
            lat.wf(),
            p.c == lat.c,
            1 <= p.h,
            1 <= p.w,
            lat.has(q, y, col),
            y0 as real <= place(y, p.h, lat.h, true) < y0 as real + 1real,
            x0 as real <= place(col, p.w, lat.w, true) < x0 as real + 1real,
        ensures
            self.passed(m, k, p, lat, lw, lb).c == lat.c,
            self.passed(m, k, p, lat, lw, lb).h == lat.h,
            self.passed(m, k, p, lat, lw, lb).w == lat.w,
            v(self.passed(m, k, p, lat, lw, lb).at(q, y, col)) == handed_on(
                v,
                p,
                self.decoder.gdt@[k - 1].out(m, p),
                lat,
                lw,
                lb,
                q,
                y,
                col,
                y0,
                x0,
            ),
    {
        reveal(Rmbg::passed);
        let gate = self.decoder.gdt@[k - 1].out(m, p);
        let counted = attended(m, p, gate.data);
        let up = resize_spec(m, counted, lat.h, lat.w, true);
        let side = conv1x1_spec(m, lat, lw, lat.c, lat.c, Some(lb));
        lemma_resize(m, v, counted, lat.h, lat.w, true, q, y, col, y0, x0);
        lemma_conv1x1(m, v, lat, lw, lat.c, lat.c, Some(lb), q, y, col);
        lemma_planes_at(lat.c, lat.h, lat.w, |a: int, b: int| p.data[0], q, y, col);
        let y1 = if y0 + 1 < p.h {
            y0 + 1
        } else {
            y0
        };
        let x1 = if x0 + 1 < p.w {
            x0 + 1
        } else {
            x0
        };
        lemma_attended(m, v, p, gate, q, y0, x0);
        lemma_attended(m, v, p, gate, q, y0, x1);
        lemma_attended(m, v, p, gate, q, y1, x0);
        lemma_attended(m, v, p, gate, q, y1, x1);
        assert(self.passed(m, k, p, lat, lw, lb).at(q, y, col) == (m.plus)(
            up.at(q, y, col),
            side.at(q, y, col),
        ));
    }

    /// Where a scale has nothing of its own, it hands on the 1x1 convolution of the features of
    /// the finer scale, and nothing else.
    pub proof fn lemma_passed_from_nothing(
        self,
        m: Arith<T>,
        v: spec_fn(T) -> real,
        k: int,
        p: Img<T>,
        lat: Img<T>,
        lw: Seq<T>,
        lb: Seq<T>,
        q: int,
        y: int,
        col: int,
        y0: int,
        x0: int,
    )
        requires
            exact(m, v),
            p.wf(),
            lat.wf(),
            p.c == lat.c,
            1 <= p.h,
            1 <= p.w,
            lat.has(q, y, col),
            y0 as real <= place(y, p.h, lat.h, true) < y0 as real + 1real,
            x0 as real <= place(col, p.w, lat.w, true) < x0 as real + 1real,
            forall|a: int, b: int, c: int| p.has(a, b, c) ==> v(#[trigger] p.at(a, b, c)) == 0real,
        ensures
            v(self.passed(m, k, p, lat, lw, lb).at(q, y, col)) == v(
                conv1x1_spec(m, lat, lw, lat.c, lat.c, Some(lb)).at(q, y, col),
            ),
    {
        self.lemma_passed(m, v, k, p, lat, lw, lb, q, y, col, y0, x0);
        lemma_conv1x1(m, v, lat, lw, lat.c, lat.c, Some(lb), q, y, col);
        let gate = self.decoder.gdt@[k - 1].out(m, p);
        let counted = attended(m, p, gate.data);
        lemma_resize(m, v, counted, lat.h, lat.w, true, q, y, col, y0, x0);
        let y1 = if y0 + 1 < p.h {
            y0 + 1
        } else {
            y0
        };
        let x1 = if x0 + 1 < p.w {
            x0 + 1
        } else {
            x0
        };
        let ty = place(y, p.h, lat.h, true) - y0 as real;
        let tx = place(col, p.w, lat.w, true) - x0 as real;
        let (a, b) = (v(gate.at(0, y0, x0)), v(gate.at(0, y0, x1)));
        let (c, d) = (v(gate.at(0, y1, x0)), v(gate.at(0, y1, x1)));
        assert(between(ty, tx, 0real * a, 0real * b, 0real * c, 0real * d) == 0real)
            by (nonlinear_arith)
            requires
                between(ty, tx, 0real * a, 0real * b, 0real * c, 0real * d) == (1real - ty) * ((
                1real - tx) * (0real * a) + tx * (0real * b)) + ty * ((1real - tx) * (0real * c)
                    + tx * (0real * d)),
        ;
    }
}

/// The features that the block of scale `k` makes.
pub open spec fn made_at<T>(way: Way<T>, k: int) -> Img<T> {
    if k == 3 {
        way.p4
    } else if k == 2 {
        way.p3
    } else if k == 1 {
        way.p2
    } else {
        way.p1
    }
}

/// The features that come into scale `k`, beside the image.
pub open spec fn brought_to<T>(way: Way<T>, k: int) -> Img<T> {
    if k == 3 {
        way.start
    } else if k == 2 {
        way.in3
    } else if k == 1 {
        way.in2
    } else {
        way.in1
    }
}

impl<T: Scalar> Rmbg<T> {
    /// The lateral weights and biases of the features of scale `k`.
    pub open spec fn lateral_of(self, k: int) -> (Seq<T>, Seq<T>) {
        if k == 2 {
            (self.decoder.lat4@, self.decoder.lat4b@)
        } else if k == 1 {
            (self.decoder.lat3@, self.decoder.lat3b@)
        } else {
            (self.decoder.lat2@, self.decoder.lat2b@)
        }
    }

    /// On the way through the decoder every scale gets what the coarser one made, as far as its
    /// attention counts it, and the features of the encoder of its own scale through the lateral
    /// weights of its own scale.
    pub proof fn lemma_skip_connections(
        self,
        m: Arith<T>,
        v: spec_fn(T) -> real,
        x: Img<T>,
        enc: Seq<Img<T>>,
        k: int,
        q: int,
        y: int,
        col: int,
        y0: int,
        x0: int,
    )
        requires
            exact(m, v),
            0 <= k < 3,
            made_at(self.way(m, x, enc), k + 1).wf(),
            enc[k].wf(),
            made_at(self.way(m, x, enc), k + 1).c == enc[k].c,
            1 <= made_at(self.way(m, x, enc), k + 1).h,
            1 <= made_at(self.way(m, x, enc), k + 1).w,
            enc[k].has(q, y, col),
            y0 as real <= place(y, made_at(self.way(m, x, enc), k + 1).h, enc[k].h, true) < y0
                as real + 1real,
            x0 as real <= place(col, made_at(self.way(m, x, enc), k + 1).w, enc[k].w, true) < x0
                as real + 1real,
        ensures
            v(brought_to(self.way(m, x, enc), k).at(q, y, col)) == handed_on(
                v,
                made_at(self.way(m, x, enc), k + 1),
                self.decoder.gdt@[k].out(m, made_at(self.way(m, x, enc), k + 1)),
                enc[k],
                self.lateral_of(k).0,
                self.lateral_of(k).1,
                q,
                y,
                col,
                y0,
                x0,
            ),
    {
        reveal(Rmbg::way);
        let p = made_at(self.way(m, x, enc), k + 1);
        let (lw, lb) = self.lateral_of(k);
        self.lemma_passed(m, v, k + 1, p, enc[k], lw, lb, q, y, col, y0, x0);
    }

    /// The decoder starts from the coarsest features, and the block of each scale works on what
    /// comes into the scale and, behind it, on what the scale makes of the image itself.
    pub proof fn lemma_blocks_see_image(
        self,
        m: Arith<T>,
        x: Img<T>,
        enc: Seq<Img<T>>,
        k: int,
        both: Img<T>,
    )
        requires
            0 <= k < 4,
            brought_to(self.way(m, x, enc), k).wf(),
            self.side(
                m,
                x,
                k + 1,
                brought_to(self.way(m, x, enc), k).h,
                brought_to(self.way(m, x, enc), k).w,
            ).wf(),
            both.wf(),
            ({
                let p = brought_to(self.way(m, x, enc), k);
                let i = self.side(m, x, k + 1, p.h, p.w);
                &&& i.h == p.h
                &&& i.w == p.w
                &&& both.c == p.c + i.c
                &&& both.h == p.h
                &&& both.w == p.w
                &&& forall|q: int, a: int, b: int| #[trigger]
                    both.has(q, a, b) ==> both.at(q, a, b) == (if q < p.c {
                        p.at(q, a, b)
                    } else {
                        i.at(q - p.c, a, b)
                    })
            }),
        ensures
            made_at(self.way(m, x, enc), k) == self.decoder.blocks@[k].out(m, both),
            k == 3 ==> brought_to(self.way(m, x, enc), k) == self.squeeze.out(m, enc[3]),
    {
        reveal(Rmbg::way);
        reveal(Rmbg::refined);
        let p = brought_to(self.way(m, x, enc), k);
        let i = self.side(m, x, k + 1, p.h, p.w);
        let got = cat2(p, i);
        lemma_same_elements(got, both, p, i);
    }

    /// The mask before the sigmoid is made from what the finest block of the decoder makes of
    /// what the encoder made of this very image, and from the image itself.
    pub proof fn lemma_network(self, m: Arith<T>, x: Img<T>, enc: Seq<Img<T>>)
        requires
            enc == self.encoded(m, x),
        ensures
            self.out(m, x) == self.finished(m, x, made_at(self.way(m, x, enc), 0)),
    {
    }

    /// The mask before the sigmoid is, at every position, the sum over the planes of what the
    /// decoder makes last, brought to the size of the image, and over the planes of what the
    /// finest scale makes of the image, each times its weight, plus the bias.
    pub proof fn lemma_finished(
        self,
        m: Arith<T>,
        v: spec_fn(T) -> real,
        x: Img<T>,
        p1: Img<T>,
        y: int,
        col: int,
        y0: int,
        x0: int,
    )
        requires
            exact(m, v),
            p1.wf(),
            1 <= p1.h,
            1 <= p1.w,
            0 <= y < x.h <= usize::MAX,
            0 <= col < x.w <= usize::MAX,
            self.side(m, x, 0, x.h, x.w).wf(),
            self.side(m, x, 0, x.h, x.w).h == x.h,
            self.side(m, x, 0, x.h, x.w).w == x.w,
            dims_fit(p1.c + self.side(m, x, 0, x.h, x.w).c, x.h, x.w),
            y0 as real <= place(y, p1.h, x.h, true) < y0 as real + 1real,
            x0 as real <= place(col, p1.w, x.w, true) < x0 as real + 1real,
        ensures
            self.finished(m, x, p1).c == 1,
            self.finished(m, x, p1).h == x.h,
            self.finished(m, x, p1).w == x.w,
            ({
                let y1 = if y0 + 1 < p1.h {
                    y0 + 1
                } else {
                    y0
                };
                let x1 = if x0 + 1 < p1.w {
                    x0 + 1
                } else {
                    x0
                };
                v(self.finished(m, x, p1).at(0, y, col)) == total(
                    |k: int|
                        v(self.decoder.conv_out1_w@[k]) * between(
                            place(y, p1.h, x.h, true) - y0 as real,
                            place(col, p1.w, x.w, true) - x0 as real,
                            v(p1.at(k, y0, x0)),
                            v(p1.at(k, y0, x1)),
                            v(p1.at(k, y1, x0)),
                            v(p1.at(k, y1, x1)),
                        ),
                    p1.c,
                ) + total(
                    |j: int|
                        v(self.decoder.conv_out1_w@[p1.c + j]) * v(
                            self.side(m, x, 0, x.h, x.w).at(j, y, col),
                        ),
                    self.side(m, x, 0, x.h, x.w).c,
                ) + v(self.decoder.conv_out1_b@[0])
            }),
    {
        reveal(Rmbg::finished);
        let up = resize_spec(m, p1, x.h, x.w, true);
        let i = self.side(m, x, 0, x.h, x.w);
        let all = cat2(up, i);
        let w = self.decoder.conv_out1_w@;
        let y1 = if y0 + 1 < p1.h {
            y0 + 1
        } else {
            y0
        };
        let x1 = if x0 + 1 < p1.w {
            x0 + 1
        } else {
            x0
        };
        assert(dims_fit(up.c, up.h, up.w)) by (nonlinear_arith)
            requires
                dims_fit(p1.c + i.c, x.h, x.w),
                0 <= p1.c <= usize::MAX,
                0 <= i.c,
                up.c == p1.c,
                up.h == x.h,
                up.w == x.w,
        ;
        assert(up.wf());
        reveal_with_fuel(cat_c, 3);
        assert(all.c == p1.c + i.c);
        lemma_conv1x1(m, v, all, w, 1, all.c, Some(self.decoder.conv_out1_b@), 0, y, col);
        let f = |k: int| v(w[0 * all.c + k]) * v(all.at(k, y, col));
        let g = |k: int|
            v(w[k]) * between(
                place(y, p1.h, x.h, true) - y0 as real,
                place(col, p1.w, x.w, true) - x0 as real,
                v(p1.at(k, y0, x0)),
                v(p1.at(k, y0, x1)),
                v(p1.at(k, y1, x0)),
                v(p1.at(k, y1, x1)),
            );
        let h = |j: int| v(w[p1.c + j]) * v(i.at(j, y, col));
        assert(0 * all.c == 0) by (nonlinear_arith);
        assert forall|k: int| 0 <= k < p1.c implies #[trigger] g(k) == f(k) by {
            lemma_two_together(up, i, k, y, col);
            lemma_resize(m, v, p1, x.h, x.w, true, k, y, col, y0, x0);
        }
        assert forall|j: int| 0 <= j < i.c implies #[trigger] h(j) == f(p1.c + j) by {
            lemma_two_together(up, i, p1.c + j, y, col);
        }
        lemma_total_split(f, g, h, p1.c, i.c);
    }

    /// The prediction of scale `k` is, at every position, the sum over the planes of what its
    /// block makes, each times its weight, plus the bias.
    pub proof fn lemma_predicted(
        self,
        m: Arith<T>,
        v: spec_fn(T) -> real,
        k: int,
        p: Img<T>,
        y: int,
        col: int,
    )
        requires
            exact(m, v),
            1 <= k < 4,
            0 <= y < p.h,
            0 <= col < p.w,
        ensures
            self.predicted(m, k, p).c == 1,
            v(self.predicted(m, k, p).at(0, y, col)) == total(
                |j: int| v(self.decoder.ms@[k - 1].0@[j]) * v(p.at(j, y, col)),
                self.decoder.ms@[k - 1].0@.len() as int,
            ) + v(self.decoder.ms@[k - 1].1@[0]),
    {
        reveal(Rmbg::predicted);
        let w = self.decoder.ms@[k - 1].0@;
        let n = w.len() as int;
        lemma_conv1x1(m, v, p, w, 1, n, Some(self.decoder.ms@[k - 1].1@), 0, y, col);
        assert(0 * n == 0) by (nonlinear_arith);
        lemma_total_same(
            |j: int| v(w[0 * n + j]) * v(p.at(j, y, col)),
            |j: int| v(w[j]) * v(p.at(j, y, col)),
            n,
        );
    }
}

/// Tensors with the same elements are the same.
proof fn lemma_same_elements<T>(got: Img<T>, both: Img<T>, p: Img<T>, i: Img<T>)
    requires
        got == cat2(p, i),
        p.wf(),
        i.wf(),
        both.wf(),
        i.h == p.h,
        i.w == p.w,
        both.c == p.c + i.c,
        both.h == p.h,
        both.w == p.w,
        forall|q: int, a: int, b: int| #[trigger]
            both.has(q, a, b) ==> both.at(q, a, b) == (if q < p.c {
                p.at(q, a, b)
            } else {
                i.at(q - p.c, a, b)
            }),
    ensures
        got == both,
{
    reveal_with_fuel(cat_c, 3);
    reveal_with_fuel(crate::layout::cat_data, 3);
    let parts = seq![p, i];
    assert(parts[0] == p && parts[1] == i);
    assert(got.data =~= p.data + i.data);
    let hw = p.h * p.w;
    assert(got.data.len() == both.data.len()) by (nonlinear_arith)
        requires
            got.data.len() == p.data.len() + i.data.len(),
            p.data.len() == p.c * hw,
            i.data.len() == i.c * hw,
            both.data.len() == (p.c + i.c) * hw,
    ;
    assert forall|n: int| 0 <= n < both.data.len() implies got.data[n] == both.data[n] by {
        crate::index::lemma_split(n, both.c, hw);
        crate::index::lemma_split(n % hw, both.h, both.w);
        let (q, a, b) = (n / hw, (n % hw) / both.w, (n % hw) % both.w);
        assert(both.has(q, a, b));
        lemma_two_together(p, i, q, a, b);
    }
    assert(got.data =~= both.data);
}

// ---- the image at every scale ---------------------------------------------------------

/// The image cut into tiles holds every element of the image, in the tile that its row and
/// column give.
pub proof fn lemma_tiles_hold_image<T>(
    m: Arith<T>,
    v: spec_fn(T) -> real,
    x: Img<T>,
    h: int,
    w: int,
    plane: int,
    row: int,
    col: int,
)
    requires
        exact(m, v),
        x.wf(),
        patches_fits(x.c, x.h, x.w, h, w),
        patches_spec(m, x, h, w).wf(),
        x.has(plane, row, col),
    ensures
        v(
            tiled(m, x, h, w).at(
                ((col / w) * steps(x.h, h) + row / h) * x.c + plane,
                row % h,
                col % w,
            ),
        ) == v(x.at(plane, row, col)),
{
    lemma_patches_hold_image(m, x, h, w, plane, row, col);
    let q = ((col / w) * steps(x.h, h) + row / h) * x.c + plane;
    lemma_resize_to_own_size(m, v, patches_spec(m, x, h, w), true, q, row % h, col % w);
}

} // verus!
