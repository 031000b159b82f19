//! Bilinear resampling.

use crate::index::{lemma_flat, lemma_split};
use crate::parallel::par_map;
use crate::pointwise::HALF;
use crate::scalar::{computes, Arith, Scalar};
use crate::tensor::{dims_fit, from_planes, lemma_planes_eq, planes, Img, Tensor};
use vstd::prelude::*;

verus! {

/// How far one step of the output goes in the input, along one axis of `from`
/// input and `to` output positions.
pub open spec fn step_of<T>(m: Arith<T>, from: int, to: int, align_corners: bool) -> T {
    if align_corners {
        if to > 1 {
            (m.over)((m.of_usize)((from - 1) as usize), (m.of_usize)((to - 1) as usize))
        } else {
            m.zero()
        }
    } else {
        (m.over)((m.of_usize)(from as usize), (m.of_usize)(to as usize))
    }
}

/// The input coordinate of output position `at`. Without aligned corners the
/// centres of the cells are matched, and a coordinate below zero becomes zero.
pub open spec fn coordinate_of<T>(m: Arith<T>, at: int, step: T, align_corners: bool) -> T {
    if align_corners {
        (m.times)((m.of_usize)(at as usize), step)
    } else {
        (m.larger)(
            (m.minus)(
                (m.times)((m.plus)((m.of_usize)(at as usize), (m.bits)(HALF)), step),
                (m.bits)(HALF),
            ),
            m.zero(),
        )
    }
}

/// The smaller of two integers.
pub open spec fn least(a: int, b: int) -> int {
    if a <= b {
        a
    } else {
        b
    }
}

/// The two input positions that output position `at` lies between, clamped to
/// the `from` positions there are, and its distance from the first.
#[verifier::ext_equal]
pub struct Tap<T> {
    pub first: int,
    pub second: int,
    pub weight: T,
}

pub open spec fn tap_of<T>(
    m: Arith<T>,
    at: int,
    from: int,
    to: int,
    align_corners: bool,
) -> Tap<T> {
    let f = coordinate_of(m, at, step_of(m, from, to, align_corners), align_corners);
    let down = (m.rounded_down)(f);
    let first = least((m.to_usize)(down) as int, from - 1);
    Tap { first, second: least(first + 1, from - 1), weight: (m.minus)(f, down) }
}

/// The point at `t` of the way from `a` to `b`.
pub open spec fn blend<T>(m: Arith<T>, a: T, b: T, t: T) -> T {
    (m.plus)(a, (m.times)((m.minus)(b, a), t))
}

/// Plane `p` of `x` sampled between rows and columns: first along the rows, then
/// between the two rows.
pub open spec fn sample_of<T>(m: Arith<T>, x: Img<T>, p: int, ty: Tap<T>, tx: Tap<T>) -> T {
    let base = p * x.hw();
    let top = blend(
        m,
        x.data[base + (ty.first * x.w + tx.first)],
        x.data[base + (ty.first * x.w + tx.second)],
        tx.weight,
    );
    let bottom = blend(
        m,
        x.data[base + (ty.second * x.w + tx.first)],
        x.data[base + (ty.second * x.w + tx.second)],
        tx.weight,
    );
    blend(m, top, bottom, ty.weight)
}

/// `x` resampled to `oh` rows and `ow` columns.
pub open spec fn resize_spec<T>(
    m: Arith<T>,
    x: Img<T>,
    oh: int,
    ow: int,
    align_corners: bool,
) -> Img<T> {
    planes(
        x.c,
        oh,
        ow,
        |p: int, s: int|
            sample_of(
                m,
                x,
                p,
                tap_of(m, s / ow, x.h, oh, align_corners),
                tap_of(m, s % ow, x.w, ow, align_corners),
            ),
    )
}

/// The dimensions on which resampling is defined.
pub open spec fn resize_fits(c: int, h: int, w: int, oh: int, ow: int) -> bool {
    &&& 1 <= h
    &&& 1 <= w
    &&& dims_fit(c, oh, ow)
}

/// A tap as computed.
struct Between<T> {
    first: usize,
    second: usize,
    weight: T,
}

impl<T> Between<T> {
    spec fn view(&self) -> Tap<T> {
        Tap { first: self.first as int, second: self.second as int, weight: self.weight }
    }
}

fn tap<T: Scalar>(at: usize, from: usize, step: T, align_corners: bool) -> (r: Between<T>)
    requires
        1 <= from,
    ensures
        r.first < from,
        r.second < from,
        forall|m: Arith<T>, to: int|
            #![trigger computes(m), tap_of(m, at as int, from as int, to, align_corners)]
            computes(m) && step == step_of(
                m,
                from as int,
                to,
                align_corners,
            ) ==> r.view() == tap_of(
                m,
                at as int,
                from as int,
                to,
                align_corners,
            ),
{
    let f = if align_corners {
        T::from_usize(at).times(step)
    } else {
        let half = T::from_bits(HALF);
        T::from_usize(at).plus(half).times(step).minus(half).larger(T::from_bits(0))
    };
    let down = f.rounded_down();
    let raw = down.to_usize();
    let first = if raw <= from - 1 {
        raw
    } else {
        from - 1
    };
    let second = if first < from - 1 {
        first + 1
    } else {
        from - 1
    };
    Between { first, second, weight: f.minus(down) }
}

fn step<T: Scalar>(from: usize, to: usize, align_corners: bool) -> (r: T)
    requires
        1 <= from,
    ensures
        forall|m: Arith<T>| #[trigger]
            computes(m) ==> r == step_of(m, from as int, to as int, align_corners),
{
    if align_corners {
        if to > 1 {
            T::from_usize(from - 1).over(T::from_usize(to - 1))
        } else {
            T::from_bits(0)
        }
    } else {
        T::from_usize(from).over(T::from_usize(to))
    }
}

/// The taps of every output position along one axis.
fn taps<T: Scalar>(from: usize, to: usize, align_corners: bool) -> (r: Vec<Between<T>>)
    requires
        1 <= from,
    ensures
        r@.len() == to,
        forall|i: int| 0 <= i < to ==> (#[trigger] r@[i]).first < from && r@[i].second < from,
        forall|m: Arith<T>| #[trigger]
            computes(m) ==> forall|i: int|
                0 <= i < to ==> (#[trigger] r@[i]).view() == tap_of(
                    m,
                    i,
                    from as int,
                    to as int,
                    align_corners,
                ),
{
    let d: T = step(from, to, align_corners);
    let mut r: Vec<Between<T>> = Vec::with_capacity(to);
    let mut i: usize = 0;
    while i < to
        invariant
            i <= to,
            1 <= from,
            r@.len() == i,
            forall|m: Arith<T>| #[trigger]
                computes(m) ==> d == step_of(m, from as int, to as int, align_corners),
            forall|j: int| 0 <= j < i ==> (#[trigger] r@[j]).first < from && r@[j].second < from,
            forall|m: Arith<T>| #[trigger]
                computes(m) ==> forall|j: int|
                    0 <= j < i ==> (#[trigger] r@[j]).view() == tap_of(
                        m,
                        j,
                        from as int,
                        to as int,
                        align_corners,
                    ),
        decreases to - i,
    {
        r.push(tap(i, from, d, align_corners));
        i += 1;
    }
    r
}

fn blended<T: Scalar>(a: T, b: T, t: T) -> (r: T)
    ensures
        forall|m: Arith<T>| #[trigger] computes(m) ==> r == blend(m, a, b, t),
{
    a.plus(b.minus(a).times(t))
}

/// `v` is plane `p` of `x` resampled.
spec fn is_resized_plane<T: Scalar>(
    v: Seq<T>,
    x: Img<T>,
    oh: int,
    ow: int,
    align_corners: bool,
    p: int,
) -> bool {
    &&& v.len() == oh * ow
    &&& forall|m: Arith<T>| #[trigger]
        computes(m) ==> forall|s: int|
            0 <= s < v.len() ==> #[trigger] v[s] == sample_of(
                m,
                x,
                p,
                tap_of(m, s / ow, x.h, oh, align_corners),
                tap_of(m, s % ow, x.w, ow, align_corners),
            )
}

fn resized_plane<T: Scalar>(
    x: &Tensor<T>,
    rows: &Vec<Between<T>>,
    cols: &Vec<Between<T>>,
    Ghost(align_corners): Ghost<bool>,
    p: usize,
) -> (r: Vec<T>)
    requires
        x@.wf(),
        p < x.c,
        rows@.len() * cols@.len() <= usize::MAX,
        forall|i: int|
            0 <= i < rows@.len() ==> (#[trigger] rows@[i]).first < x.h && rows@[i].second < x.h,
        forall|i: int|
            0 <= i < cols@.len() ==> (#[trigger] cols@[i]).first < x.w && cols@[i].second < x.w,
        forall|m: Arith<T>| #[trigger]
            computes(m) ==> forall|i: int|
                0 <= i < rows@.len() ==> (#[trigger] rows@[i]).view() == tap_of(
                    m,
                    i,
                    x.h as int,
                    rows@.len() as int,
                    align_corners,
                ),
        forall|m: Arith<T>| #[trigger]
            computes(m) ==> forall|i: int|
                0 <= i < cols@.len() ==> (#[trigger] cols@[i]).view() == tap_of(
                    m,
                    i,
                    x.w as int,
                    cols@.len() as int,
                    align_corners,
                ),
    ensures
        is_resized_plane(r@, x@, rows@.len() as int, cols@.len() as int, align_corners, p as int),
{
    let hw = x.hw();
    let oh = rows.len();
    let ow = cols.len();
    let n = oh * ow;
    let iw = x.w;
    proof {
        assert(p * hw + hw <= x.c * hw && 0 <= p * hw) by (nonlinear_arith)
            requires
                p < x.c,
        ;
    }
    let base = p * hw;
    let mut r: Vec<T> = Vec::with_capacity(n);
    let mut s: usize = 0;
    while s < n
        invariant
            s <= n,
            n == oh * ow,
            oh == rows@.len(),
            ow == cols@.len(),
            hw == x@.hw(),
            iw == x.w,
            base == p * hw,
            base + hw <= x.data@.len(),
            x@.wf(),
            forall|i: int|
                0 <= i < rows@.len() ==> (#[trigger] rows@[i]).first < x.h && rows@[i].second < x.h,
            forall|i: int|
                0 <= i < cols@.len() ==> (#[trigger] cols@[i]).first < x.w && cols@[i].second < x.w,
            forall|m: Arith<T>| #[trigger]
                computes(m) ==> forall|i: int|
                    0 <= i < rows@.len() ==> (#[trigger] rows@[i]).view() == tap_of(
                        m,
                        i,
                        x.h as int,
                        rows@.len() as int,
                        align_corners,
                    ),
            forall|m: Arith<T>| #[trigger]
                computes(m) ==> forall|i: int|
                    0 <= i < cols@.len() ==> (#[trigger] cols@[i]).view() == tap_of(
                        m,
                        i,
                        x.w as int,
                        cols@.len() as int,
                        align_corners,
                    ),
            r@.len() == s,
            forall|m: Arith<T>| #[trigger]
                computes(m) ==> forall|t: int|
                    0 <= t < s ==> #[trigger] r@[t] == sample_of(
                        m,
                        x@,
                        p as int,
                        tap_of(m, t / ow as int, x.h as int, oh as int, align_corners),
                        tap_of(m, t % ow as int, x.w as int, ow as int, align_corners),
                    ),
        decreases n - s,
    {
        proof {
            lemma_split(s as int, oh as int, ow as int);
        }
        let ty = &rows[s / ow];
        let tx = &cols[s % ow];
        proof {
            lemma_flat(ty.first as int, x.h as int, tx.first as int, iw as int);
            lemma_flat(ty.first as int, x.h as int, tx.second as int, iw as int);
            lemma_flat(ty.second as int, x.h as int, tx.first as int, iw as int);
            lemma_flat(ty.second as int, x.h as int, tx.second as int, iw as int);
        }
        let top = blended(
            x.data[base + (ty.first * iw + tx.first)],
            x.data[base + (ty.first * iw + tx.second)],
            tx.weight,
        );
        let bottom = blended(
            x.data[base + (ty.second * iw + tx.first)],
            x.data[base + (ty.second * iw + tx.second)],
            tx.weight,
        );
        r.push(blended(top, bottom, ty.weight));
        s += 1;
    }
    r
}

/// Bilinear resampling of every plane, with or without aligned corners.
pub fn resize_bilinear<T: Scalar>(x: &Tensor<T>, oh: usize, ow: usize, align_corners: bool) -> (r:
    Tensor<T>)
    requires
        x@.wf(),
        resize_fits(x.c as int, x.h as int, x.w as int, oh as int, ow as int),
    ensures
        r@.wf(),
        r.c == x.c && r.h == oh && r.w == ow,
        forall|m: Arith<T>| #[trigger]
            computes(m) ==> r@ == resize_spec(m, x@, oh as int, ow as int, align_corners),
{
    let rows: Vec<Between<T>> = taps(x.h, oh, align_corners);
    let cols: Vec<Between<T>> = taps(x.w, ow, align_corners);
    let c = x.c;
    let plane = |p: usize| -> (v: Vec<T>)
        requires
            p < c,
        ensures
            is_resized_plane(v@, x@, oh as int, ow as int, align_corners, p as int),
        { resized_plane(x, &rows, &cols, Ghost(align_corners), p) };
    let parts = par_map(c, plane);
    assert forall|i: int| 0 <= i < parts@.len() implies (
        #[trigger] parts@[i]
    )@.len() == oh * ow by {
        assert(is_resized_plane(
            parts@[i as usize as int]@,
            x@,
            oh as int,
            ow as int,
            align_corners,
            i,
        ));
    }
    let r = from_planes(c, oh, ow, parts);
    assert forall|m: Arith<T>| #[trigger] computes(m) implies r@ == resize_spec(
        m,
        x@,
        oh as int,
        ow as int,
        align_corners,
    ) by {
        let got = |p: int, s: int| parts@[p]@[s];
        let want = |p: int, s: int|
            sample_of(
                m,
                x@,
                p,
                tap_of(m, s / ow as int, x@.h, oh as int, align_corners),
                tap_of(m, s % ow as int, x@.w, ow as int, align_corners),
            );
        assert forall|p: int, s: int|
            0 <= p < c && 0 <= s < oh * ow implies #[trigger] got(p, s) == want(p, s) by {
            assert(is_resized_plane(
                parts@[p as usize as int]@,
                x@,
                oh as int,
                ow as int,
                align_corners,
                p,
            ));
        }
        lemma_planes_eq(c as int, oh as int, ow as int, got, want);
    }
    r
}

} // verus!
