//! Convolutions.

use crate::index::{lemma_flat, lemma_split};
use crate::parallel::par_map;
use crate::scalar::{computes, Arith, Scalar};
use crate::tensor::{dims_fit, from_planes, lemma_planes_eq, opt, opt_len, planes, Img, Tensor};
use vstd::prelude::*;

verus! {

// ---- 1x1 convolution ------------------------------------------------------------------

/// Sum over the first `n` input planes of weight times element, at position
/// `s`, in plane order; a weight that is zero is passed over.
pub open spec fn conv1x1_sum<T>(
    m: Arith<T>,
    x: Seq<T>,
    hw: int,
    w: Seq<T>,
    base: int,
    s: int,
    n: int,
) -> T
    decreases n,
{
    if n <= 0 {
        m.zero()
    } else {
        let before = conv1x1_sum(m, x, hw, w, base, s, n - 1);
        if m.is_zero(w[base + n - 1]) {
            before
        } else {
            (m.plus)(before, (m.times)(w[base + n - 1], x[(n - 1) * hw + s]))
        }
    }
}

/// `v` plus element `p` of the bias, where there is one.
pub open spec fn biased<T>(m: Arith<T>, v: T, bias: Option<Seq<T>>, p: int) -> T {
    match bias {
        Some(b) => (m.plus)(v, b[p]),
        None => v,
    }
}

/// The 1x1 convolution of `x`: plane `p`, position `s` is the weighted sum over
/// the input planes at `s`, with weights `w[p * ic ..]`, plus the bias.
pub open spec fn conv1x1_spec<T>(
    m: Arith<T>,
    x: Img<T>,
    w: Seq<T>,
    oc: int,
    ic: int,
    bias: Option<Seq<T>>,
) -> Img<T> {
    planes(
        oc,
        x.h,
        x.w,
        |p: int, s: int|
            biased(m, conv1x1_sum(m, x.data, x.hw(), w, p * ic, s, ic), bias, p),
    )
}

/// The bias has an entry for each of `oc` planes.
pub open spec fn bias_fits(oc: int, blen: Option<int>) -> bool {
    match blen {
        Some(n) => oc <= n,
        None => true,
    }
}

/// The dimensions on which a 1x1 convolution is defined.
pub open spec fn conv1x1_fits(
    xc: int,
    h: int,
    w: int,
    wlen: int,
    oc: int,
    ic: int,
    blen: Option<int>,
) -> bool {
    &&& ic <= xc
    &&& oc * ic <= wlen
    &&& bias_fits(oc, blen)
    &&& dims_fit(oc, h, w)
}

/// `v` is plane `p` of a 1x1 convolution of `x`.
spec fn is_conv1x1_plane<T: Scalar>(
    v: Seq<T>,
    x: Img<T>,
    w: Seq<T>,
    ic: int,
    bias: Option<Seq<T>>,
    p: int,
) -> bool {
    &&& v.len() == x.hw()
    &&& forall|m: Arith<T>| #[trigger]
        computes(m) ==> forall|s: int|
            0 <= s < v.len() ==> #[trigger] v[s] == biased(
                m,
                conv1x1_sum(m, x.data, x.hw(), w, p * ic, s, ic),
                bias,
                p,
            )
}

fn conv1x1_plane<T: Scalar>(
    x: &Tensor<T>,
    w: &[T],
    oc: usize,
    ic: usize,
    bias: Option<&[T]>,
    p: usize,
) -> (r: Vec<T>)
    requires
        x@.wf(),
        conv1x1_fits(
            x.c as int,
            x.h as int,
            x.w as int,
            w@.len() as int,
            oc as int,
            ic as int,
            opt_len(bias),
        ),
        p < oc,
    ensures
        is_conv1x1_plane(r@, x@, w@, ic as int, opt(bias), p as int),
{
    let hw = x.hw();
    let mut r: Vec<T> = Vec::with_capacity(hw);
    let zero = T::from_bits(0);
    let mut s: usize = 0;
    while s < hw
        invariant
            s <= hw,
            hw == x@.hw(),
            x@.wf(),
            ic <= x.c,
            oc * ic <= w@.len(),
            bias_fits(oc as int, opt_len(bias)),
            p < oc,
            forall|m: Arith<T>| #[trigger] computes(m) ==> zero == m.zero(),
            r@.len() == s,
            forall|m: Arith<T>| #[trigger]
                computes(m) ==> forall|t: int|
                    0 <= t < s ==> #[trigger] r@[t] == biased(
                        m,
                        conv1x1_sum(m, x.data@, x@.hw(), w@, p * ic, t, ic as int),
                        opt(bias),
                        p as int,
                    ),
        decreases hw - s,
    {
        let mut acc = zero;
        let mut i: usize = 0;
        while i < ic
            invariant
                i <= ic,
                s < hw,
                hw == x@.hw(),
                x@.wf(),
                ic <= x.c,
                oc * ic <= w@.len(),
                p < oc,
                forall|m: Arith<T>| #[trigger] computes(m) ==> zero == m.zero(),
                forall|m: Arith<T>| #[trigger]
                    computes(m) ==> acc == conv1x1_sum(
                        m,
                        x.data@,
                        x@.hw(),
                        w@,
                        p * ic,
                        s as int,
                        i as int,
                    ),
            decreases ic - i,
        {
            proof {
                assert(w@.len() == w.len());
                lemma_flat(p as int, oc as int, i as int, ic as int);
                lemma_flat(i as int, x.c as int, s as int, hw as int);
            }
            let wv = w[p * ic + i];
            if !wv.same(zero) {
                acc = acc.plus(wv.times(x.data[i * hw + s]));
            }
            i += 1;
        }
        match bias {
            Some(b) => {
                acc = acc.plus(b[p]);
            },
            None => {},
        }
        r.push(acc);
        s += 1;
    }
    r
}

/// 1x1 convolution of the first `ic` planes of `x` to `oc` planes.
pub fn conv1x1<T: Scalar>(
    x: &Tensor<T>,
    w: &[T],
    oc: usize,
    ic: usize,
    bias: Option<&[T]>,
) -> (r: Tensor<T>)
    requires
        x@.wf(),
        conv1x1_fits(
            x.c as int,
            x.h as int,
            x.w as int,
            w@.len() as int,
            oc as int,
            ic as int,
            opt_len(bias),
        ),
    ensures
        r@.wf(),
        r.c == oc && r.h == x.h && r.w == x.w,
        forall|m: Arith<T>| #[trigger]
            computes(m) ==> r@ == conv1x1_spec(m, x@, w@, oc as int, ic as int, opt(bias)),
{
    let plane = |p: usize| -> (v: Vec<T>)
        requires
            p < oc,
        ensures
            is_conv1x1_plane(v@, x@, w@, ic as int, opt(bias), p as int),
        { conv1x1_plane(x, w, oc, ic, bias, p) };
    let rows = par_map(oc, plane);
    assert forall|i: int| 0 <= i < rows@.len() implies (#[trigger] rows@[i])@.len() == x@.hw() by {
        assert(is_conv1x1_plane(rows@[i as usize as int]@, x@, w@, ic as int, opt(bias), i));
    }
    let r = from_planes(oc, x.h, x.w, rows);
    assert forall|m: Arith<T>| #[trigger] computes(m) implies r@ == conv1x1_spec(
        m,
        x@,
        w@,
        oc as int,
        ic as int,
        opt(bias),
    ) by {
        let got = |p: int, s: int| rows@[p]@[s];
        let want = |p: int, s: int|
            biased(m, conv1x1_sum(m, x@.data, x@.hw(), w@, p * ic, s, ic as int), opt(bias), p);
        assert forall|p: int, s: int|
            0 <= p < oc && 0 <= s < x.h * x.w implies #[trigger] got(p, s) == want(p, s) by {
            assert(is_conv1x1_plane(rows@[p as usize as int]@, x@, w@, ic as int, opt(bias), p));
        }
        lemma_planes_eq(oc as int, x.h as int, x.w as int, got, want);
    }
    r
}

// ---- k by k convolution, stride 1 -----------------------------------------------------

/// One output element of a `k` by `k` convolution of `x`: plane `p`, row `y`,
/// column `col`. The kernel is centred on the element.
#[verifier::reject_recursive_types(T)]
pub struct Kernel<T> {
    pub x: Img<T>,
    pub w: Seq<T>,
    pub ic: int,
    pub k: int,
    pub p: int,
    pub y: int,
    pub col: int,
}

impl<T> Kernel<T> {
    /// The input row under kernel row `ky`.
    pub open spec fn row(self, ky: int) -> int {
        self.y + ky - self.k / 2
    }

    /// The input column under kernel column `kx`.
    pub open spec fn column(self, kx: int) -> int {
        self.col + kx - self.k / 2
    }

    /// `start` plus weight times element over the first `n` input planes, under
    /// one kernel cell; a weight that is zero is passed over.
    pub open spec fn over_planes(self, m: Arith<T>, start: T, ky: int, kx: int, n: int) -> T
        decreases n,
    {
        if n <= 0 {
            start
        } else {
            let before = self.over_planes(m, start, ky, kx, n - 1);
            let wv = self.w[((self.p * self.ic + (n - 1)) * self.k + ky) * self.k + kx];
            if m.is_zero(wv) {
                before
            } else {
                (m.plus)(
                    before,
                    (m.times)(
                        wv,
                        self.x.data[(n - 1) * self.x.hw() + (self.row(ky) * self.x.w + self.column(
                            kx,
                        ))],
                    ),
                )
            }
        }
    }

    /// Continued over the first `n` cells of kernel row `ky`; a cell outside the
    /// input adds nothing.
    pub open spec fn over_columns(self, m: Arith<T>, start: T, ky: int, n: int) -> T
        decreases n,
    {
        if n <= 0 {
            start
        } else {
            let before = self.over_columns(m, start, ky, n - 1);
            if 0 <= self.column(n - 1) < self.x.w {
                self.over_planes(m, before, ky, n - 1, self.ic)
            } else {
                before
            }
        }
    }

    /// Continued over the first `n` rows of the kernel, from zero.
    pub open spec fn over_rows(self, m: Arith<T>, n: int) -> T
        decreases n,
    {
        if n <= 0 {
            m.zero()
        } else {
            let before = self.over_rows(m, n - 1);
            if 0 <= self.row(n - 1) < self.x.h {
                self.over_columns(m, before, n - 1, self.k)
            } else {
                before
            }
        }
    }
}

/// The `k` by `k` convolution of `x` with stride 1 and zero padding of half the
/// kernel on each side.
pub open spec fn conv_kxk_spec<T>(
    m: Arith<T>,
    x: Img<T>,
    w: Seq<T>,
    oc: int,
    ic: int,
    k: int,
    bias: Option<Seq<T>>,
) -> Img<T> {
    planes(
        oc,
        x.h,
        x.w,
        |p: int, s: int|
            biased(
                m,
                (Kernel { x, w, ic, k, p, y: s / x.w, col: s % x.w }).over_rows(m, k),
                bias,
                p,
            ),
    )
}

/// The dimensions on which a `k` by `k` convolution is defined.
pub open spec fn conv_kxk_fits(
    xc: int,
    h: int,
    w: int,
    wlen: int,
    oc: int,
    ic: int,
    k: int,
    blen: Option<int>,
) -> bool {
    &&& ic <= xc
    &&& oc * ic * k * k <= wlen
    &&& bias_fits(oc, blen)
    &&& dims_fit(oc, h, w)
}

/// The position under kernel offset `j` of a kernel of `k` cells centred on
/// `at`, where it lies within `len`.
fn under(at: usize, j: usize, k: usize, len: usize) -> (r: Option<usize>)
    requires
        at < len,
    ensures
        match r {
            Some(i) => i == at + j - k as int / 2 && i < len,
            None => !(0 <= at + j - k as int / 2 < len),
        },
{
    let half = k / 2;
    if j >= half {
        let d = j - half;
        if d < len - at {
            Some(at + d)
        } else {
            None
        }
    } else {
        let d = half - j;
        if d <= at {
            Some(at - d)
        } else {
            None
        }
    }
}

/// The weight index of a kernel cell is in bounds.
pub proof fn lemma_cell(p: int, oc: int, ci: int, ic: int, ky: int, kx: int, k: int)
    requires
        0 <= p < oc,
        0 <= ci < ic,
        0 <= ky < k,
        0 <= kx < k,
    ensures
        0 <= p * ic <= p * ic + ci,
        0 <= (p * ic + ci) * k <= (p * ic + ci) * k + ky,
        0 <= ((p * ic + ci) * k + ky) * k,
        0 <= ((p * ic + ci) * k + ky) * k + kx < oc * ic * k * k,
        p * ic + ci <= ((p * ic + ci) * k + ky) * k + kx,
        (p * ic + ci) * k + ky <= ((p * ic + ci) * k + ky) * k + kx,
{
    lemma_flat(p, oc, ci, ic);
    lemma_flat(p * ic + ci, oc * ic, ky, k);
    lemma_flat((p * ic + ci) * k + ky, oc * ic * k, kx, k);
    let a = p * ic + ci;
    let b = a * k + ky;
    assert(a <= a * k) by (nonlinear_arith)
        requires
            0 <= a,
            1 <= k,
    ;
    assert(b <= b * k) by (nonlinear_arith)
        requires
            0 <= b,
            1 <= k,
    ;
}

/// The positions that belong to a kernel cell in the per-cell planes are in bounds.
pub proof fn lemma_flat_cell(ky: int, kx: int, k: int, at: int, hw: int)
    requires
        0 <= ky < k,
        0 <= kx < k,
        0 <= at < hw,
    ensures
        0 <= ky * k,
        0 <= ky * k + kx < k * k,
        0 <= (ky * k + kx) * hw,
        0 <= (ky * k + kx) * hw + at < (k * k) * hw,
        0 <= (2 * (ky * k + kx)) * hw,
        0 <= (2 * (ky * k + kx)) * hw + at < (2 * (k * k)) * hw,
        0 <= (2 * (ky * k + kx) + 1) * hw,
        0 <= (2 * (ky * k + kx) + 1) * hw + at < (2 * (k * k)) * hw,
        2 * (ky * k + kx) + 1 <= (2 * (ky * k + kx) + 1) * hw,
{
    lemma_flat(ky, k, kx, k);
    let cell = ky * k + kx;
    lemma_flat(cell, k * k, at, hw);
    lemma_flat(2 * cell, 2 * (k * k), at, hw);
    lemma_flat(2 * cell + 1, 2 * (k * k), at, hw);
    assert(2 * cell + 1 <= (2 * cell + 1) * hw) by (nonlinear_arith)
        requires
            0 <= cell,
            1 <= hw,
    ;
}

/// One output element, without the bias.
fn kernel_at<T: Scalar>(
    x: &Tensor<T>,
    w: &[T],
    oc: usize,
    ic: usize,
    k: usize,
    p: usize,
    y: usize,
    col: usize,
) -> (r: T)
    requires
        x@.wf(),
        ic <= x.c,
        oc * ic * k * k <= w@.len(),
        p < oc,
        y < x.h,
        col < x.w,
    ensures
        forall|m: Arith<T>| #[trigger]
            computes(m) ==> r == (Kernel {
                x: x@,
                w: w@,
                ic: ic as int,
                k: k as int,
                p: p as int,
                y: y as int,
                col: col as int,
            }).over_rows(m, k as int),
{
    let ghost g = Kernel {
        x: x@,
        w: w@,
        ic: ic as int,
        k: k as int,
        p: p as int,
        y: y as int,
        col: col as int,
    };
    let hw = x.hw();
    let zero = T::from_bits(0);
    let mut acc = zero;
    let mut ky: usize = 0;
    while ky < k
        invariant
            ky <= k,
            hw == x@.hw(),
            x@.wf(),
            ic <= x.c,
            oc * ic * k * k <= w@.len(),
            p < oc,
            y < x.h,
            col < x.w,
            g == (Kernel {
                x: x@,
                w: w@,
                ic: ic as int,
                k: k as int,
                p: p as int,
                y: y as int,
                col: col as int,
            }),
            forall|m: Arith<T>| #[trigger] computes(m) ==> zero == m.zero(),
            forall|m: Arith<T>| #[trigger] computes(m) ==> acc == g.over_rows(m, ky as int),
        decreases k - ky,
    {
        if let Some(iy) = under(y, ky, k, x.h) {
            let ghost start = acc;
            let mut kx: usize = 0;
            while kx < k
                invariant
                    kx <= k,
                    ky < k,
                    hw == x@.hw(),
                    x@.wf(),
                    ic <= x.c,
                    oc * ic * k * k <= w@.len(),
                    p < oc,
                    col < x.w,
                    iy < x.h,
                    iy == g.row(ky as int),
                    g == (Kernel {
                        x: x@,
                        w: w@,
                        ic: ic as int,
                        k: k as int,
                        p: p as int,
                        y: y as int,
                        col: col as int,
                    }),
                    forall|m: Arith<T>| #[trigger] computes(m) ==> zero == m.zero(),
                    forall|m: Arith<T>| #[trigger]
                        computes(m) ==> acc == g.over_columns(m, start, ky as int, kx as int),
                decreases k - kx,
            {
                if let Some(ix) = under(col, kx, k, x.w) {
                    let ghost cell = acc;
                    proof {
                        lemma_flat(iy as int, x.h as int, ix as int, x.w as int);
                    }
                    let at = iy * x.w + ix;
                    let mut ci: usize = 0;
                    while ci < ic
                        invariant
                            ci <= ic,
                            ky < k,
                            kx < k,
                            hw == x@.hw(),
                            x@.wf(),
                            ic <= x.c,
                            oc * ic * k * k <= w@.len(),
                            p < oc,
                            at < hw,
                            at == g.row(ky as int) * x.w + g.column(kx as int),
                            g == (Kernel {
                                x: x@,
                                w: w@,
                                ic: ic as int,
                                k: k as int,
                                p: p as int,
                                y: y as int,
                                col: col as int,
                            }),
                            forall|m: Arith<T>| #[trigger] computes(m) ==> zero == m.zero(),
                            forall|m: Arith<T>| #[trigger]
                                computes(m) ==> acc == g.over_planes(
                                    m,
                                    cell,
                                    ky as int,
                                    kx as int,
                                    ci as int,
                                ),
                        decreases ic - ci,
                    {
                        proof {
                            assert(w@.len() == w.len());
                            lemma_cell(
                                p as int,
                                oc as int,
                                ci as int,
                                ic as int,
                                ky as int,
                                kx as int,
                                k as int,
                            );
                            lemma_flat(ci as int, x.c as int, at as int, hw as int);
                        }
                        let wv = w[((p * ic + ci) * k + ky) * k + kx];
                        if !wv.same(zero) {
                            acc = acc.plus(wv.times(x.data[ci * hw + at]));
                        }
                        ci += 1;
                    }
                }
                kx += 1;
            }
        }
        ky += 1;
    }
    acc
}

/// `v` is plane `p` of a `k` by `k` convolution of `x`.
spec fn is_kxk_plane<T: Scalar>(
    v: Seq<T>,
    x: Img<T>,
    w: Seq<T>,
    ic: int,
    k: int,
    bias: Option<Seq<T>>,
    p: int,
) -> bool {
    &&& v.len() == x.hw()
    &&& forall|m: Arith<T>| #[trigger]
        computes(m) ==> forall|s: int|
            0 <= s < v.len() ==> #[trigger] v[s] == biased(
                m,
                (Kernel { x, w, ic, k, p, y: s / x.w, col: s % x.w }).over_rows(m, k),
                bias,
                p,
            )
}

fn conv_kxk_plane<T: Scalar>(
    x: &Tensor<T>,
    w: &[T],
    oc: usize,
    ic: usize,
    k: usize,
    bias: Option<&[T]>,
    p: usize,
) -> (r: Vec<T>)
    requires
        x@.wf(),
        conv_kxk_fits(
            x.c as int,
            x.h as int,
            x.w as int,
            w@.len() as int,
            oc as int,
            ic as int,
            k as int,
            opt_len(bias),
        ),
        p < oc,
    ensures
        is_kxk_plane(r@, x@, w@, ic as int, k as int, opt(bias), p as int),
{
    let hw = x.hw();
    let mut r: Vec<T> = Vec::with_capacity(hw);
    let mut s: usize = 0;
    while s < hw
        invariant
            s <= hw,
            hw == x@.hw(),
            x@.wf(),
            conv_kxk_fits(
                x.c as int,
                x.h as int,
                x.w as int,
                w@.len() as int,
                oc as int,
                ic as int,
                k as int,
                opt_len(bias),
            ),
            p < oc,
            r@.len() == s,
            forall|m: Arith<T>| #[trigger]
                computes(m) ==> forall|t: int|
                    0 <= t < s ==> #[trigger] r@[t] == biased(
                        m,
                        (Kernel {
                            x: x@,
                            w: w@,
                            ic: ic as int,
                            k: k as int,
                            p: p as int,
                            y: t / x.w as int,
                            col: t % x.w as int,
                        }).over_rows(m, k as int),
                        opt(bias),
                        p as int,
                    ),
        decreases hw - s,
    {
        proof {
            lemma_split(s as int, x.h as int, x.w as int);
        }
        let mut acc = kernel_at(x, w, oc, ic, k, p, s / x.w, s % x.w);
        match bias {
            Some(b) => {
                acc = acc.plus(b[p]);
            },
            None => {},
        }
        r.push(acc);
        s += 1;
    }
    r
}

/// `k` by `k` convolution with stride 1 and padding of half the kernel.
pub fn conv_kxk<T: Scalar>(
    x: &Tensor<T>,
    w: &[T],
    oc: usize,
    ic: usize,
    k: usize,
    bias: Option<&[T]>,
) -> (r: Tensor<T>)
    requires
        x@.wf(),
        conv_kxk_fits(
            x.c as int,
            x.h as int,
            x.w as int,
            w@.len() as int,
            oc as int,
            ic as int,
            k as int,
            opt_len(bias),
        ),
    ensures
        r@.wf(),
        r.c == oc && r.h == x.h && r.w == x.w,
        forall|m: Arith<T>| #[trigger]
            computes(m) ==> r@ == conv_kxk_spec(
                m,
                x@,
                w@,
                oc as int,
                ic as int,
                k as int,
                opt(bias),
            ),
{
    let plane = |p: usize| -> (v: Vec<T>)
        requires
            p < oc,
        ensures
            is_kxk_plane(v@, x@, w@, ic as int, k as int, opt(bias), p as int),
        { conv_kxk_plane(x, w, oc, ic, k, bias, p) };
    let rows = par_map(oc, plane);
    assert forall|i: int| 0 <= i < rows@.len() implies (#[trigger] rows@[i])@.len() == x@.hw() by {
        assert(is_kxk_plane(rows@[i as usize as int]@, x@, w@, ic as int, k as int, opt(bias), i));
    }
    let r = from_planes(oc, x.h, x.w, rows);
    assert forall|m: Arith<T>| #[trigger] computes(m) implies r@ == conv_kxk_spec(
        m,
        x@,
        w@,
        oc as int,
        ic as int,
        k as int,
        opt(bias),
    ) by {
        let got = |p: int, s: int| rows@[p]@[s];
        let want = |p: int, s: int|
            biased(
                m,
                (Kernel {
                    x: x@,
                    w: w@,
                    ic: ic as int,
                    k: k as int,
                    p,
                    y: s / x@.w,
                    col: s % x@.w,
                }).over_rows(m, k as int),
                opt(bias),
                p,
            );
        assert forall|p: int, s: int|
            0 <= p < oc && 0 <= s < x.h * x.w implies #[trigger] got(p, s) == want(p, s) by {
            assert(
                is_kxk_plane(rows@[p as usize as int]@, x@, w@, ic as int, k as int, opt(bias), p)
            );
        }
        lemma_planes_eq(oc as int, x.h as int, x.w as int, got, want);
    }
    r
}

// ---- 4 by 4 convolution, stride 4 -----------------------------------------------------

/// One output element of the patch-embedding convolution of `x`: plane `p`,
/// patch row `y`, patch column `col`. Each output element covers its own 4 by 4
/// patch of the input.
#[verifier::reject_recursive_types(T)]
pub struct Patch<T> {
    pub x: Img<T>,
    pub w: Seq<T>,
    pub ic: int,
    pub p: int,
    pub y: int,
    pub col: int,
}

impl<T> Patch<T> {
    /// `start` plus element times weight over the first `n` cells of a patch row.
    pub open spec fn over_columns(self, m: Arith<T>, start: T, ci: int, ky: int, n: int) -> T
        decreases n,
    {
        if n <= 0 {
            start
        } else {
            (m.plus)(
                self.over_columns(m, start, ci, ky, n - 1),
                (m.times)(
                    self.x.data[ci * self.x.hw()
                        + ((self.y * 4 + ky) * self.x.w + (self.col * 4 + (n - 1)))],
                    self.w[((self.p * self.ic + ci) * 4 + ky) * 4 + (n - 1)],
                ),
            )
        }
    }

    /// Continued over the first `n` rows of a patch.
    pub open spec fn over_rows(self, m: Arith<T>, start: T, ci: int, n: int) -> T
        decreases n,
    {
        if n <= 0 {
            start
        } else {
            self.over_columns(m, self.over_rows(m, start, ci, n - 1), ci, n - 1, 4)
        }
    }

    /// Continued over the first `n` input planes, from zero.
    pub open spec fn over_planes(self, m: Arith<T>, n: int) -> T
        decreases n,
    {
        if n <= 0 {
            m.zero()
        } else {
            self.over_rows(m, self.over_planes(m, n - 1), n - 1, 4)
        }
    }
}

/// The 4 by 4 convolution of `x` with stride 4 and no padding.
pub open spec fn conv4x4_stride4_spec<T>(
    m: Arith<T>,
    x: Img<T>,
    w: Seq<T>,
    oc: int,
    ic: int,
    bias: Option<Seq<T>>,
) -> Img<T> {
    planes(
        oc,
        x.h / 4,
        x.w / 4,
        |p: int, s: int|
            biased(
                m,
                (Patch { x, w, ic, p, y: s / (x.w / 4), col: s % (x.w / 4) }).over_planes(m, ic),
                bias,
                p,
            ),
    )
}

/// The dimensions on which the patch-embedding convolution is defined.
pub open spec fn conv4x4_stride4_fits(
    xc: int,
    h: int,
    w: int,
    wlen: int,
    oc: int,
    ic: int,
    blen: Option<int>,
) -> bool {
    &&& ic <= xc
    &&& oc * ic * 4 * 4 <= wlen
    &&& bias_fits(oc, blen)
    &&& dims_fit(oc, h / 4, w / 4)
}

/// One output element, without the bias.
fn patch_at<T: Scalar>(
    x: &Tensor<T>,
    w: &[T],
    oc: usize,
    ic: usize,
    p: usize,
    y: usize,
    col: usize,
) -> (r: T)
    requires
        x@.wf(),
        ic <= x.c,
        oc * ic * 4 * 4 <= w@.len(),
        p < oc,
        y < x.h / 4,
        col < x.w / 4,
    ensures
        forall|m: Arith<T>| #[trigger]
            computes(m) ==> r == (Patch {
                x: x@,
                w: w@,
                ic: ic as int,
                p: p as int,
                y: y as int,
                col: col as int,
            }).over_planes(m, ic as int),
{
    let ghost g = Patch {
        x: x@,
        w: w@,
        ic: ic as int,
        p: p as int,
        y: y as int,
        col: col as int,
    };
    let hw = x.hw();
    let mut acc = T::from_bits(0);
    let mut ci: usize = 0;
    while ci < ic
        invariant
            ci <= ic,
            hw == x@.hw(),
            x@.wf(),
            ic <= x.c,
            oc * ic * 4 * 4 <= w@.len(),
            p < oc,
            y < x.h / 4,
            col < x.w / 4,
            g == (Patch {
                x: x@,
                w: w@,
                ic: ic as int,
                p: p as int,
                y: y as int,
                col: col as int,
            }),
            forall|m: Arith<T>| #[trigger] computes(m) ==> acc == g.over_planes(m, ci as int),
        decreases ic - ci,
    {
        let ghost start = acc;
        let mut ky: usize = 0;
        while ky < 4
            invariant
                ky <= 4,
                ci < ic,
                hw == x@.hw(),
                x@.wf(),
                ic <= x.c,
                oc * ic * 4 * 4 <= w@.len(),
                p < oc,
                y < x.h / 4,
                col < x.w / 4,
                g == (Patch {
                    x: x@,
                    w: w@,
                    ic: ic as int,
                    p: p as int,
                    y: y as int,
                    col: col as int,
                }),
                forall|m: Arith<T>| #[trigger]
                    computes(m) ==> acc == g.over_rows(m, start, ci as int, ky as int),
            decreases 4 - ky,
        {
            let ghost cell = acc;
            let mut kx: usize = 0;
            while kx < 4
                invariant
                    kx <= 4,
                    ky < 4,
                    ci < ic,
                    hw == x@.hw(),
                    x@.wf(),
                    ic <= x.c,
                    oc * ic * 4 * 4 <= w@.len(),
                    p < oc,
                    y < x.h / 4,
                    col < x.w / 4,
                    g == (Patch {
                        x: x@,
                        w: w@,
                        ic: ic as int,
                        p: p as int,
                        y: y as int,
                        col: col as int,
                    }),
                    forall|m: Arith<T>| #[trigger]
                        computes(m) ==> acc == g.over_columns(
                            m,
                            cell,
                            ci as int,
                            ky as int,
                            kx as int,
                        ),
                decreases 4 - kx,
            {
                proof {
                    assert(w@.len() == w.len());
                    lemma_cell(p as int, oc as int, ci as int, ic as int, ky as int, kx as int, 4);
                    lemma_flat(y * 4 + ky, x.h as int, col * 4 + kx, x.w as int);
                    lemma_flat(
                        ci as int,
                        x.c as int,
                        (y * 4 + ky) * x.w + (col * 4 + kx),
                        hw as int,
                    );
                }
                let v = x.data[ci * hw + ((y * 4 + ky) * x.w + (col * 4 + kx))];
                acc = acc.plus(v.times(w[((p * ic + ci) * 4 + ky) * 4 + kx]));
                kx += 1;
            }
            ky += 1;
        }
        ci += 1;
    }
    acc
}

/// `v` is plane `p` of the patch-embedding convolution of `x`.
spec fn is_patch_plane<T: Scalar>(
    v: Seq<T>,
    x: Img<T>,
    w: Seq<T>,
    ic: int,
    bias: Option<Seq<T>>,
    p: int,
) -> bool {
    &&& v.len() == (x.h / 4) * (x.w / 4)
    &&& forall|m: Arith<T>| #[trigger]
        computes(m) ==> forall|s: int|
            0 <= s < v.len() ==> #[trigger] v[s] == biased(
                m,
                (Patch { x, w, ic, p, y: s / (x.w / 4), col: s % (x.w / 4) }).over_planes(m, ic),
                bias,
                p,
            )
}

fn conv4x4_stride4_plane<T: Scalar>(
    x: &Tensor<T>,
    w: &[T],
    oc: usize,
    ic: usize,
    bias: Option<&[T]>,
    p: usize,
) -> (r: Vec<T>)
    requires
        x@.wf(),
        conv4x4_stride4_fits(
            x.c as int,
            x.h as int,
            x.w as int,
            w@.len() as int,
            oc as int,
            ic as int,
            opt_len(bias),
        ),
        p < oc,
    ensures
        is_patch_plane(r@, x@, w@, ic as int, opt(bias), p as int),
{
    let oh = x.h / 4;
    let ow = x.w / 4;
    let n = oh * ow;
    let mut r: Vec<T> = Vec::with_capacity(n);
    let mut s: usize = 0;
    while s < n
        invariant
            s <= n,
            n == oh * ow,
            oh == x.h / 4,
            ow == x.w / 4,
            x@.wf(),
            conv4x4_stride4_fits(
                x.c as int,
                x.h as int,
                x.w as int,
                w@.len() as int,
                oc as int,
                ic as int,
                opt_len(bias),
            ),
            p < oc,
            r@.len() == s,
            forall|m: Arith<T>| #[trigger]
                computes(m) ==> forall|t: int|
                    0 <= t < s ==> #[trigger] r@[t] == biased(
                        m,
                        (Patch {
                            x: x@,
                            w: w@,
                            ic: ic as int,
                            p: p as int,
                            y: t / ow as int,
                            col: t % ow as int,
                        }).over_planes(m, ic as int),
                        opt(bias),
                        p as int,
                    ),
        decreases n - s,
    {
        proof {
            lemma_split(s as int, oh as int, ow as int);
        }
        let mut acc = patch_at(x, w, oc, ic, p, s / ow, s % ow);
        match bias {
            Some(b) => {
                acc = acc.plus(b[p]);
            },
            None => {},
        }
        r.push(acc);
        s += 1;
    }
    r
}

/// 4 by 4 convolution with stride 4: one output element for each patch.
pub fn conv4x4_stride4<T: Scalar>(
    x: &Tensor<T>,
    w: &[T],
    oc: usize,
    ic: usize,
    bias: Option<&[T]>,
) -> (r: Tensor<T>)
    requires
        x@.wf(),
        conv4x4_stride4_fits(
            x.c as int,
            x.h as int,
            x.w as int,
            w@.len() as int,
            oc as int,
            ic as int,
            opt_len(bias),
        ),
    ensures
        r@.wf(),
        r.c == oc && r.h == x.h / 4 && r.w == x.w / 4,
        forall|m: Arith<T>| #[trigger]
            computes(m) ==> r@ == conv4x4_stride4_spec(m, x@, w@, oc as int, ic as int, opt(bias)),
{
    let plane = |p: usize| -> (v: Vec<T>)
        requires
            p < oc,
        ensures
            is_patch_plane(v@, x@, w@, ic as int, opt(bias), p as int),
        { conv4x4_stride4_plane(x, w, oc, ic, bias, p) };
    let rows = par_map(oc, plane);
    assert forall|i: int| 0 <= i < rows@.len() implies
        (#[trigger] rows@[i])@.len() == (x@.h / 4) * (x@.w / 4) by {
        assert(is_patch_plane(rows@[i as usize as int]@, x@, w@, ic as int, opt(bias), i));
    }
    let r = from_planes(oc, x.h / 4, x.w / 4, rows);
    assert forall|m: Arith<T>| #[trigger] computes(m) implies r@ == conv4x4_stride4_spec(
        m,
        x@,
        w@,
        oc as int,
        ic as int,
        opt(bias),
    ) by {
        let got = |p: int, s: int| rows@[p]@[s];
        let want = |p: int, s: int|
            biased(
                m,
                (Patch {
                    x: x@,
                    w: w@,
                    ic: ic as int,
                    p,
                    y: s / (x@.w / 4),
                    col: s % (x@.w / 4),
                }).over_planes(m, ic as int),
                opt(bias),
                p,
            );
        assert forall|p: int, s: int|
            0 <= p < oc && 0 <= s < (x@.h / 4) * (x@.w / 4) implies #[trigger] got(p, s) == want(
            p,
            s,
        ) by {
            assert(is_patch_plane(rows@[p as usize as int]@, x@, w@, ic as int, opt(bias), p));
        }
        lemma_planes_eq(oc as int, x@.h / 4, x@.w / 4, got, want);
    }
    r
}

} // verus!
