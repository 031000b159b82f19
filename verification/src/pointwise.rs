//! Normalisation, activation and elementwise operations.

use crate::index::{lemma_flat, lemma_split};
use crate::parallel::par_map;
use crate::scalar::{computes, Arith, Scalar, ONE};
use crate::tensor::{assemble, Img, Tensor};
use vstd::prelude::*;
use vstd::slice::slice_subrange;

verus! {

/// Bit pattern of one half.
pub const HALF: u32 = 0x3f00_0000;

/// Bit pattern of the square root of 2.
pub const SQRT_2: u32 = 0x3fb5_04f3;

/// Bit patterns of the coefficients of the polynomial for the error function:
/// 0.3275911, 1.061405429, 1.453152027, 1.421413741, 0.284496736, 0.254829592.
pub const ERF_P: u32 = 0x3ea7_ba05;

pub const ERF_A5: u32 = 0x3f87_dc22;

pub const ERF_A4: u32 = 0x3fba_00e3;

pub const ERF_A3: u32 = 0x3fb5_f0e3;

pub const ERF_A2: u32 = 0x3e91_a98e;

pub const ERF_A1: u32 = 0x3e82_7906;

// ---- sums -----------------------------------------------------------------------------

/// The first `n` elements added up in order, from zero.
pub open spec fn sum_of<T>(m: Arith<T>, s: Seq<T>, n: int) -> T
    decreases n,
{
    if n <= 0 {
        m.zero()
    } else {
        (m.plus)(sum_of(m, s, n - 1), s[n - 1])
    }
}

/// The elements added up in order.
pub fn sum<T: Scalar>(s: &[T]) -> (r: T)
    ensures
        forall|m: Arith<T>| #[trigger] computes(m) ==> r == sum_of(m, s@, s@.len() as int),
{
    let mut acc = T::from_bits(0);
    let mut i: usize = 0;
    while i < s.len()
        invariant
            i <= s@.len(),
            forall|m: Arith<T>| #[trigger] computes(m) ==> acc == sum_of(m, s@, i as int),
        decreases s@.len() - i,
    {
        acc = acc.plus(s[i]);
        i += 1;
    }
    acc
}

// ---- layer norm -----------------------------------------------------------------------

/// The squared distances of the first `n` elements from `mean`, added up.
pub open spec fn spread_of<T>(m: Arith<T>, s: Seq<T>, mean: T, n: int) -> T
    decreases n,
{
    if n <= 0 {
        m.zero()
    } else {
        let d = (m.minus)(s[n - 1], mean);
        (m.plus)(spread_of(m, s, mean, n - 1), (m.times)(d, d))
    }
}

/// The mean of a row.
pub open spec fn mean_of<T>(m: Arith<T>, row: Seq<T>) -> T {
    (m.over)(sum_of(m, row, row.len() as int), (m.of_usize)(row.len() as usize))
}

/// One over the square root of the variance of a row plus `eps`.
pub open spec fn inverse_deviation<T>(m: Arith<T>, row: Seq<T>, eps: T) -> T {
    let variance = (m.over)(
        spread_of(m, row, mean_of(m, row), row.len() as int),
        (m.of_usize)(row.len() as usize),
    );
    (m.over)(m.one(), (m.square_root)((m.plus)(variance, eps)))
}

/// A row shifted to mean 0 and scaled to variance 1, then scaled by `w` and
/// shifted by `b`.
pub open spec fn layernorm_row<T>(
    m: Arith<T>,
    row: Seq<T>,
    w: Seq<T>,
    b: Seq<T>,
    eps: T,
) -> Seq<T> {
    Seq::new(
        row.len(),
        |i: int|
            (m.plus)(
                (m.times)(
                    (m.times)(
                        (m.minus)(row[i], mean_of(m, row)),
                        inverse_deviation(m, row, eps),
                    ),
                    w[i],
                ),
                b[i],
            ),
    )
}

/// The first `n` rows of `c` elements normalised each on its own, the rest kept.
pub open spec fn layernorm_spec<T>(
    m: Arith<T>,
    data: Seq<T>,
    n: int,
    c: int,
    w: Seq<T>,
    b: Seq<T>,
    eps: T,
) -> Seq<T> {
    Seq::new(
        data.len(),
        |i: int|
            if i / c < n {
                layernorm_row(m, data.subrange((i / c) * c, (i / c) * c + c), w, b, eps)[i % c]
            } else {
                data[i]
            },
    )
}

fn normalised_row<T: Scalar>(row: &[T], w: &[T], b: &[T], eps: T) -> (r: Vec<T>)
    requires
        row@.len() <= w@.len(),
        row@.len() <= b@.len(),
    ensures
        r@.len() == row@.len(),
        forall|m: Arith<T>| #[trigger] computes(m) ==> r@ == layernorm_row(m, row@, w@, b@, eps),
{
    let c = row.len();
    let count = T::from_usize(c);
    let mean = sum(row).over(count);
    let mut spread = T::from_bits(0);
    let mut i: usize = 0;
    while i < c
        invariant
            i <= c,
            c == row@.len(),
            forall|m: Arith<T>| #[trigger]
                computes(m) ==> spread == spread_of(m, row@, mean, i as int),
        decreases c - i,
    {
        let d = row[i].minus(mean);
        spread = spread.plus(d.times(d));
        i += 1;
    }
    let inv = T::from_bits(ONE).over(spread.over(count).plus(eps).square_root());
    let mut r: Vec<T> = Vec::with_capacity(c);
    let mut j: usize = 0;
    while j < c
        invariant
            j <= c,
            c == row@.len(),
            c <= w@.len(),
            c <= b@.len(),
            r@.len() == j,
            forall|m: Arith<T>| #[trigger]
                computes(m) ==> mean == mean_of(m, row@) && inv == inverse_deviation(m, row@, eps),
            forall|m: Arith<T>| #[trigger]
                computes(m) ==> forall|t: int|
                    0 <= t < j ==> #[trigger] r@[t] == layernorm_row(m, row@, w@, b@, eps)[t],
        decreases c - j,
    {
        r.push(row[j].minus(mean).times(inv).times(w[j]).plus(b[j]));
        j += 1;
    }
    assert forall|m: Arith<T>| #[trigger] computes(m) implies r@ == layernorm_row(
        m,
        row@,
        w@,
        b@,
        eps,
    ) by {
        assert(r@ =~= layernorm_row(m, row@, w@, b@, eps));
    }
    r
}

/// `v` is row `i` of `data`, normalised.
spec fn is_normal_row<T: Scalar>(
    v: Seq<T>,
    data: Seq<T>,
    c: int,
    w: Seq<T>,
    b: Seq<T>,
    eps: T,
    i: int,
) -> bool {
    &&& v.len() == c
    &&& forall|m: Arith<T>| #[trigger]
        computes(m) ==> v == layernorm_row(m, data.subrange(i * c, i * c + c), w, b, eps)
}

fn normalised_at<T: Scalar>(
    data: &Vec<T>,
    c: usize,
    w: &[T],
    b: &[T],
    eps: T,
    n: usize,
    i: usize,
) -> (r:
    Vec<T>)
    requires
        i < n,
        0 < c,
        n * c <= data@.len(),
        c <= w@.len(),
        c <= b@.len(),
    ensures
        is_normal_row(r@, data@, c as int, w@, b@, eps, i as int),
{
    proof {
        assert(data@.len() == data.len());
        lemma_flat(i as int, n as int, 0, c as int);
    }
    let row = slice_subrange(data.as_slice(), i * c, i * c + c);
    normalised_row(row, w, b, eps)
}

/// Layer norm over the last dimension: the first `n` rows of `c` elements.
pub fn layernorm_inplace<T: Scalar>(data: &mut Vec<T>, n: usize, c: usize, w: &[T], b: &[T], eps: T)
    requires
        0 < c,
        n * c <= old(data)@.len() || old(data)@.len() % (c as nat) == 0,
        c <= w@.len(),
        c <= b@.len(),
    ensures
        final(data)@.len() == old(data)@.len(),
        forall|m: Arith<T>| #[trigger]
            computes(m) ==> final(data)@ == layernorm_spec(
                m,
                old(data)@,
                n as int,
                c as int,
                w@,
                b@,
                eps,
            ),
{
    let src: &Vec<T> = &*data;
    let len = src.len();
    let most = len / c;
    let rows = if n < most {
        n
    } else {
        most
    };
    proof {
        vstd::arithmetic::div_mod::lemma_fundamental_div_mod(len as int, c as int);
        assert(rows * c <= most * c) by (nonlinear_arith)
            requires
                rows <= most,
        ;
        assert(c * most == most * c) by (nonlinear_arith);
    }
    let row_of = |i: usize| -> (v: Vec<T>)
        requires
            i < rows,
        ensures
            is_normal_row(v@, src@, c as int, w@, b@, eps, i as int),
        { normalised_at(src, c, w, b, eps, rows, i) };
    let parts = par_map(rows, row_of);
    assert forall|i: int| 0 <= i < parts@.len() implies (#[trigger] parts@[i])@.len() == c by {
        assert(is_normal_row(parts@[i as usize as int]@, src@, c as int, w@, b@, eps, i));
    }
    let mut out = assemble(&parts, c);
    let ghost head = out@;
    let mut i: usize = out.len();
    while i < len
        invariant
            head.len() <= i <= len,
            len == src@.len(),
            out@.len() == i,
            out@ == head + src@.subrange(head.len() as int, i as int),
        decreases len - i,
    {
        out.push(src[i]);
        i += 1;
    }
    proof {
        assert forall|m: Arith<T>| #[trigger] computes(m) implies out@ == layernorm_spec(
            m,
            src@,
            n as int,
            c as int,
            w@,
            b@,
            eps,
        ) by {
            let want = layernorm_spec(m, src@, n as int, c as int, w@, b@, eps);
            assert forall|i: int| 0 <= i < len implies out@[i] == want[i] by {
                vstd::arithmetic::div_mod::lemma_fundamental_div_mod(i, c as int);
                if i < head.len() {
                    lemma_split(i, rows as int, c as int);
                    let p = (i / c as int) as usize;
                    assert(is_normal_row(parts@[p as int]@, src@, c as int, w@, b@, eps, p as int));
                } else {
                    assert(i / c as int >= rows) by (nonlinear_arith)
                        requires
                            i >= rows * c,
                            c > 0,
                            i == c * (i / c as int) + i % c as int,
                            0 <= i % (c as int) < c,
                    ;
                    if rows < n {
                        assert(rows == most);
                        assert(most * c == len) by (nonlinear_arith)
                            requires
                                n * c <= len || len % c == 0,
                                len == c * most + len % c,
                                most < n,
                                0 <= len % c < c,
                                0 < c,
                        ;
                    }
                }
            }
            assert(out@ =~= want);
        }
    }
    *data = out;
}

/// Layer norm of all complete rows of `c` elements.
pub fn layernorm_slice<T: Scalar>(data: &mut Vec<T>, c: usize, w: &[T], b: &[T], eps: T)
    requires
        0 < c,
        c <= w@.len(),
        c <= b@.len(),
    ensures
        final(data)@.len() == old(data)@.len(),
        forall|m: Arith<T>| #[trigger]
            computes(m) ==> final(data)@ == layernorm_spec(
                m,
                old(data)@,
                old(data)@.len() as int / c as int,
                c as int,
                w@,
                b@,
                eps,
            ),
{
    let n = data.len() / c;
    proof {
        let len = data@.len();
        vstd::arithmetic::div_mod::lemma_fundamental_div_mod(len as int, c as int);
        assert(c * n == n * c) by (nonlinear_arith);
    }
    layernorm_inplace(data, n, c, w, b, eps);
}

// ---- per-channel and elementwise operations -------------------------------------------

/// `x` with each element replaced by a function of its plane, its position within
/// the plane and its value.
pub open spec fn mapped<T>(x: Img<T>, f: spec_fn(int, int, T) -> T) -> Img<T> {
    Img {
        c: x.c,
        h: x.h,
        w: x.w,
        data: Seq::new(x.data.len(), |i: int| f(i / x.hw(), i % x.hw(), x.data[i])),
    }
}

/// Each plane scaled and shifted by its own pair of numbers.
pub open spec fn affine_spec<T>(m: Arith<T>, x: Img<T>, scale: Seq<T>, shift: Seq<T>) -> Img<T> {
    mapped(x, |p: int, s: int, v: T| (m.plus)((m.times)(v, scale[p]), shift[p]))
}

/// Scales and shifts each plane.
pub fn apply_affine_inplace<T: Scalar>(x: &mut Tensor<T>, scale: &[T], shift: &[T])
    requires
        old(x)@.wf(),
        old(x).c <= scale@.len(),
        old(x).c <= shift@.len(),
    ensures
        final(x)@.wf(),
        final(x).c == old(x).c && final(x).h == old(x).h && final(x).w == old(x).w,
        forall|m: Arith<T>| #[trigger]
            computes(m) ==> final(x)@ == affine_spec(m, old(x)@, scale@, shift@),
{
    let hw = x.hw();
    let src: &Vec<T> = &x.data;
    let n = src.len();
    let c = x.c;
    let elem = |i: usize| -> (v: T)
        requires
            i < n,
        ensures
            forall|m: Arith<T>| #[trigger]
                computes(m) ==> v == (m.plus)(
                    (m.times)(src@[i as int], scale@[i as int / hw as int]),
                    shift@[i as int / hw as int],
                ),
        {
            proof {
                lemma_split(i as int, c as int, hw as int);
            }
            src[i].times(scale[i / hw]).plus(shift[i / hw])
        };
    let out = par_map(n, elem);
    proof {
        assert forall|m: Arith<T>| #[trigger] computes(m) implies out@ == affine_spec(
            m,
            x@,
            scale@,
            shift@,
        ).data by {
            let want = affine_spec(m, x@, scale@, shift@).data;
            assert forall|i: int| 0 <= i < n implies out@[i] == want[i] by {
                assert(out@[i as usize as int] == want[i]);
            }
            assert(out@ =~= want);
        }
    }
    x.data = out;
}

/// The larger of the value and zero, kept as it is where it is not below zero.
pub open spec fn relu_of<T>(m: Arith<T>, v: T) -> T {
    if (m.less)(v, m.zero()) {
        m.zero()
    } else {
        v
    }
}

/// 1 / (1 + exp(-v)).
pub open spec fn sigmoid_of<T>(m: Arith<T>, v: T) -> T {
    (m.over)(m.one(), (m.plus)(m.one(), (m.exponential)((m.negated)(v))))
}

/// Every element replaced by a function of it.
pub open spec fn each<T>(x: Img<T>, f: spec_fn(T) -> T) -> Img<T> {
    mapped(x, |p: int, s: int, v: T| f(v))
}

fn sigmoid<T: Scalar>(v: T) -> (r: T)
    ensures
        forall|m: Arith<T>| #[trigger] computes(m) ==> r == sigmoid_of(m, v),
{
    let one = T::from_bits(ONE);
    one.over(one.plus(v.negated().exponential()))
}

/// Elements below zero become zero.
pub fn relu_inplace<T: Scalar>(x: &mut Tensor<T>)
    ensures
        final(x).c == old(x).c && final(x).h == old(x).h && final(x).w == old(x).w,
        final(x)@.data.len() == old(x)@.data.len(),
        forall|m: Arith<T>| #[trigger]
            computes(m) ==> final(x)@ == each(old(x)@, |v: T| relu_of(m, v)),
{
    let src: &Vec<T> = &x.data;
    let n = src.len();
    let elem = |i: usize| -> (v: T)
        requires
            i < n,
        ensures
            forall|m: Arith<T>| #[trigger] computes(m) ==> v == relu_of(m, src@[i as int]),
        {
            let zero = T::from_bits(0);
            if src[i].less(zero) {
                zero
            } else {
                src[i]
            }
        };
    let out = par_map(n, elem);
    proof {
        assert forall|m: Arith<T>| #[trigger] computes(m) implies out@ == each(
            x@,
            |v: T| relu_of(m, v),
        ).data by {
            let want = each(x@, |v: T| relu_of(m, v)).data;
            assert forall|i: int| 0 <= i < n implies out@[i] == want[i] by {
                assert(out@[i as usize as int] == want[i]);
            }
            assert(out@ =~= want);
        }
    }
    x.data = out;
}

/// Every element becomes 1 / (1 + exp(-v)).
pub fn sigmoid_inplace<T: Scalar>(x: &mut Tensor<T>)
    ensures
        final(x).c == old(x).c && final(x).h == old(x).h && final(x).w == old(x).w,
        final(x)@.data.len() == old(x)@.data.len(),
        forall|m: Arith<T>| #[trigger]
            computes(m) ==> final(x)@ == each(old(x)@, |v: T| sigmoid_of(m, v)),
{
    let src: &Vec<T> = &x.data;
    let n = src.len();
    let elem = |i: usize| -> (v: T)
        requires
            i < n,
        ensures
            forall|m: Arith<T>| #[trigger] computes(m) ==> v == sigmoid_of(m, src@[i as int]),
        { sigmoid(src[i]) };
    let out = par_map(n, elem);
    proof {
        assert forall|m: Arith<T>| #[trigger] computes(m) implies out@ == each(
            x@,
            |v: T| sigmoid_of(m, v),
        ).data by {
            let want = each(x@, |v: T| sigmoid_of(m, v)).data;
            assert forall|i: int| 0 <= i < n implies out@[i] == want[i] by {
                assert(out@[i as usize as int] == want[i]);
            }
            assert(out@ =~= want);
        }
    }
    x.data = out;
}

/// The sign of a number, as 1 or -1.
pub open spec fn sign_of<T>(m: Arith<T>, v: T) -> T {
    if (m.less)(v, m.zero()) {
        (m.negated)(m.one())
    } else {
        m.one()
    }
}

/// The error function of a number `x` that is not below zero, by formula 7.1.26 of Abramowitz
/// and Stegun.
pub open spec fn erf_size<T>(m: Arith<T>, x: T) -> T {
    let t = (m.over)(m.one(), (m.plus)(m.one(), (m.times)((m.bits)(ERF_P), x)));
    let p5 = (m.minus)((m.times)((m.bits)(ERF_A5), t), (m.bits)(ERF_A4));
    let p4 = (m.plus)((m.times)(p5, t), (m.bits)(ERF_A3));
    let p3 = (m.minus)((m.times)(p4, t), (m.bits)(ERF_A2));
    let p2 = (m.plus)((m.times)(p3, t), (m.bits)(ERF_A1));
    (m.minus)(
        m.one(),
        (m.times)((m.times)(p2, t), (m.exponential)((m.times)((m.negated)(x), x))),
    )
}

/// The error function: that of the magnitude, with the sign of the number.
pub open spec fn erf_of<T>(m: Arith<T>, v: T) -> T {
    (m.times)(sign_of(m, v), erf_size(m, (m.magnitude)(v)))
}

/// In the table `m`, negation acts as such on `v`, which is not zero, and on `y`: it turns the
/// sign of `v` and keeps its magnitude, twice it does nothing to `y`, and 1 and -1 times `y` are
/// `y` and its negation.
pub open spec fn turns_sign<T>(m: Arith<T>, v: T, y: T) -> bool {
    &&& (m.less)((m.negated)(v), m.zero()) == !(m.less)(v, m.zero())
    &&& (m.magnitude)((m.negated)(v)) == (m.magnitude)(v)
    &&& (m.negated)((m.negated)(y)) == y
    &&& (m.times)(m.one(), y) == y
    &&& (m.times)((m.negated)(m.one()), y) == (m.negated)(y)
}

/// The error function is odd: that of a negated number is exactly the negated one. So it is for
/// every table in which negation acts as such on the numbers at hand.
pub proof fn lemma_erf_odd<T>(m: Arith<T>, v: T)
    requires
        turns_sign(m, v, erf_size(m, (m.magnitude)(v))),
    ensures
        erf_of(m, (m.negated)(v)) == (m.negated)(erf_of(m, v)),
{
}

/// The error function.
pub fn erf<T: Scalar>(v: T) -> (r: T)
    ensures
        forall|m: Arith<T>| #[trigger] computes(m) ==> r == erf_of(m, v),
{
    let one = T::from_bits(ONE);
    let sign = if v.less(T::from_bits(0)) {
        one.negated()
    } else {
        one
    };
    let x = v.magnitude();
    let t = one.over(one.plus(T::from_bits(ERF_P).times(x)));
    let p5 = T::from_bits(ERF_A5).times(t).minus(T::from_bits(ERF_A4));
    let p4 = p5.times(t).plus(T::from_bits(ERF_A3));
    let p3 = p4.times(t).minus(T::from_bits(ERF_A2));
    let p2 = p3.times(t).plus(T::from_bits(ERF_A1));
    let y = one.minus(p2.times(t).times(x.negated().times(x).exponential()));
    sign.times(y)
}

/// v / 2 * (1 + erf(v / sqrt(2))).
pub open spec fn gelu_of<T>(m: Arith<T>, v: T) -> T {
    (m.times)(
        (m.times)((m.bits)(HALF), v),
        (m.plus)(m.one(), erf_of(m, (m.over)(v, (m.bits)(SQRT_2)))),
    )
}

fn gelu<T: Scalar>(v: T) -> (r: T)
    ensures
        forall|m: Arith<T>| #[trigger] computes(m) ==> r == gelu_of(m, v),
{
    T::from_bits(HALF).times(v).times(T::from_bits(ONE).plus(erf(v.over(T::from_bits(SQRT_2)))))
}

/// Every element becomes v / 2 * (1 + erf(v / sqrt(2))).
pub fn gelu_exact_inplace<T: Scalar>(x: &mut Tensor<T>)
    ensures
        final(x).c == old(x).c && final(x).h == old(x).h && final(x).w == old(x).w,
        final(x)@.data.len() == old(x)@.data.len(),
        forall|m: Arith<T>| #[trigger]
            computes(m) ==> final(x)@ == each(old(x)@, |v: T| gelu_of(m, v)),
{
    let src: &Vec<T> = &x.data;
    let n = src.len();
    let elem = |i: usize| -> (v: T)
        requires
            i < n,
        ensures
            forall|m: Arith<T>| #[trigger] computes(m) ==> v == gelu_of(m, src@[i as int]),
        { gelu(src[i]) };
    let out = par_map(n, elem);
    proof {
        assert forall|m: Arith<T>| #[trigger] computes(m) implies out@ == each(
            x@,
            |v: T| gelu_of(m, v),
        ).data by {
            let want = each(x@, |v: T| gelu_of(m, v)).data;
            assert forall|i: int| 0 <= i < n implies out@[i] == want[i] by {
                assert(out@[i as usize as int] == want[i]);
            }
            assert(out@ =~= want);
        }
    }
    x.data = out;
}

/// Every element of `a` plus the element of `b` at the same place.
pub open spec fn added<T>(m: Arith<T>, a: Seq<T>, b: Seq<T>) -> Seq<T> {
    Seq::new(a.len(), |i: int| (m.plus)(a[i], b[i]))
}

/// The elementwise sum of two vectors of one length.
pub(crate) fn sum_elements<T: Scalar>(a: &Vec<T>, b: &Vec<T>) -> (r: Vec<T>)
    requires
        a@.len() == b@.len(),
    ensures
        r@.len() == a@.len(),
        forall|m: Arith<T>| #[trigger] computes(m) ==> r@ == added(m, a@, b@),
{
    let n = a.len();
    let elem = |i: usize| -> (v: T)
        requires
            i < n,
        ensures
            forall|m: Arith<T>| #[trigger]
                computes(m) ==> v == (m.plus)(a@[i as int], b@[i as int]),
        { a[i].plus(b[i]) };
    let out = par_map(n, elem);
    proof {
        assert forall|m: Arith<T>| #[trigger] computes(m) implies out@ == added(m, a@, b@) by {
            let want = added(m, a@, b@);
            assert forall|i: int| 0 <= i < n implies out@[i] == want[i] by {
                assert(out@[i as usize as int] == want[i]);
            }
            assert(out@ =~= want);
        }
    }
    out
}

/// Adds `src` to `dst` element by element.
pub fn add_inplace<T: Scalar>(dst: &mut Tensor<T>, src: &Tensor<T>)
    requires
        old(dst)@.data.len() == src@.data.len(),
    ensures
        final(dst).c == old(dst).c && final(dst).h == old(dst).h && final(dst).w == old(dst).w,
        final(dst)@.data.len() == old(dst)@.data.len(),
        forall|m: Arith<T>| #[trigger]
            computes(m) ==> final(dst)@.data == added(m, old(dst)@.data, src@.data),
{
    let out = sum_elements(&dst.data, &src.data);
    dst.data = out;
}

/// Each plane multiplied by the one plane of `attn`.
pub open spec fn attended<T>(m: Arith<T>, x: Img<T>, attn: Seq<T>) -> Img<T> {
    mapped(x, |p: int, s: int, v: T| (m.times)(v, attn[s]))
}

/// Multiplies every plane by the single plane of `attn`.
pub fn mul_broadcast_channel_inplace<T: Scalar>(dst: &mut Tensor<T>, attn: &Tensor<T>)
    requires
        old(dst)@.wf(),
        attn@.wf(),
        attn.c == 1,
        attn@.hw() == old(dst)@.hw(),
    ensures
        final(dst)@.wf(),
        final(dst).c == old(dst).c && final(dst).h == old(dst).h && final(dst).w == old(dst).w,
        forall|m: Arith<T>| #[trigger]
            computes(m) ==> final(dst)@ == attended(m, old(dst)@, attn@.data),
{
    let hw = dst.hw();
    let c = dst.c;
    let src: &Vec<T> = &dst.data;
    let n = src.len();
    let elem = |i: usize| -> (v: T)
        requires
            i < n,
        ensures
            forall|m: Arith<T>| #[trigger]
                computes(m) ==> v == (m.times)(src@[i as int], attn.data@[i as int % hw as int]),
        {
            proof {
                lemma_split(i as int, c as int, hw as int);
            }
            src[i].times(attn.data[i % hw])
        };
    let out = par_map(n, elem);
    proof {
        assert forall|m: Arith<T>| #[trigger] computes(m) implies out@ == attended(
            m,
            dst@,
            attn@.data,
        ).data by {
            let want = attended(m, dst@, attn@.data).data;
            assert forall|i: int| 0 <= i < n implies out@[i] == want[i] by {
                assert(out@[i as usize as int] == want[i]);
            }
            assert(out@ =~= want);
        }
    }
    dst.data = out;
}

/// The mean of each plane.
pub open spec fn pooled<T>(m: Arith<T>, x: Img<T>) -> Seq<T> {
    Seq::new(x.c as nat, |p: int| mean_of(m, x.data.subrange(p * x.hw(), p * x.hw() + x.hw())))
}

/// Average over each plane.
pub fn global_avg_pool<T: Scalar>(x: &Tensor<T>) -> (r: Vec<T>)
    requires
        x@.wf(),
    ensures
        r@.len() == x.c,
        forall|m: Arith<T>| #[trigger] computes(m) ==> r@ == pooled(m, x@),
{
    let hw = x.hw();
    let n = x.c;
    let mean = |p: usize| -> (v: T)
        requires
            p < n,
        ensures
            forall|m: Arith<T>| #[trigger]
                computes(m) ==> v == mean_of(m, x.data@.subrange(p * hw, p * hw + hw)),
        {
            proof {
                assert((p + 1) * hw <= n * hw && p * hw + hw == (p + 1) * hw) by (nonlinear_arith)
                    requires
                        p < n,
                ;
                assert(0 <= p * hw) by (nonlinear_arith);
            }
            sum(slice_subrange(x.data.as_slice(), p * hw, p * hw + hw)).over(T::from_usize(hw))
        };
    let out = par_map(n, mean);
    proof {
        assert forall|m: Arith<T>| #[trigger] computes(m) implies out@ == pooled(m, x@) by {
            let want = pooled(m, x@);
            assert forall|i: int| 0 <= i < n implies out@[i] == want[i] by {
                assert(out@[i as usize as int] == want[i]);
            }
            assert(out@ =~= want);
        }
    }
    out
}

} // verus!
