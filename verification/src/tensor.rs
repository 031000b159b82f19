//! Tensors in channel, height, width order, and the operations on them.

use crate::index::{lemma_flat, lemma_split, lemma_unflat};
use crate::scalar::{computes, Arith, Scalar};
use vstd::prelude::*;

verus! {

/// A tensor as a mathematical value: `data` holds the `c` planes one after the
/// other, each plane row by row.
#[verifier::ext_equal]
pub struct Img<T> {
    pub c: int,
    pub h: int,
    pub w: int,
    pub data: Seq<T>,
}

/// A tensor of `c` planes of `h` rows and `w` columns.
#[derive(Debug)]
pub struct Tensor<T> {
    pub c: usize,
    pub h: usize,
    pub w: usize,
    /// The planes one after the other, each row by row.
    pub data: Vec<T>,
}

impl<T> View for Tensor<T> {
    type V = Img<T>;

    open spec fn view(&self) -> Img<T> {
        Img { c: self.c as int, h: self.h as int, w: self.w as int, data: self.data@ }
    }
}

impl<T: Copy> Clone for Tensor<T> {
    fn clone(&self) -> (r: Self)
        ensures
            r@ == self@,
    {
        Tensor { c: self.c, h: self.h, w: self.w, data: copied(&self.data) }
    }
}

/// A tensor of these dimensions has a length that the machine can hold.
pub open spec fn dims_fit(c: int, h: int, w: int) -> bool {
    &&& 0 <= c <= usize::MAX
    &&& 0 <= h <= usize::MAX
    &&& 0 <= w <= usize::MAX
    &&& h * w <= usize::MAX
    &&& c * (h * w) <= usize::MAX
}

impl<T> Img<T> {
    /// The data fill the dimensions exactly.
    pub open spec fn wf(self) -> bool {
        &&& dims_fit(self.c, self.h, self.w)
        &&& self.data.len() == self.c * (self.h * self.w)
    }

    /// Number of elements of a plane.
    pub open spec fn hw(self) -> int {
        self.h * self.w
    }

    /// The element of plane `p` at row `y` and column `x`.
    pub open spec fn at(self, p: int, y: int, x: int) -> T {
        self.data[p * (self.h * self.w) + (y * self.w + x)]
    }

    /// There is an element of plane `p` at row `y` and column `x`.
    pub open spec fn has(self, p: int, y: int, x: int) -> bool {
        0 <= p < self.c && 0 <= y < self.h && 0 <= x < self.w
    }
}

/// The contents of an optional slice.
pub open spec fn opt<T>(s: Option<&[T]>) -> Option<Seq<T>> {
    match s {
        Some(v) => Some(v@),
        None => None,
    }
}

/// The length of an optional slice.
pub open spec fn opt_len<T>(s: Option<&[T]>) -> Option<int> {
    match s {
        Some(v) => Some(v@.len() as int),
        None => None,
    }
}

/// A tensor whose elements are given by plane and position within the plane.
pub open spec fn planes<T>(c: int, h: int, w: int, f: spec_fn(int, int) -> T) -> Img<T> {
    Img {
        c,
        h,
        w,
        data: Seq::new((c * (h * w)) as nat, |i: int| f(i / (h * w), i % (h * w))),
    }
}

/// Two ways to give the elements that agree within the dimensions give one tensor.
pub proof fn lemma_planes_eq<T>(
    c: int,
    h: int,
    w: int,
    f: spec_fn(int, int) -> T,
    g: spec_fn(int, int) -> T,
)
    requires
        0 <= c,
        0 <= h * w,
        forall|p: int, s: int| 0 <= p < c && 0 <= s < h * w ==> #[trigger] f(p, s) == g(p, s),
    ensures
        planes(c, h, w, f) == planes(c, h, w, g),
{
    let a = planes(c, h, w, f).data;
    let b = planes(c, h, w, g).data;
    assert forall|i: int| 0 <= i < a.len() implies a[i] == b[i] by {
        lemma_split(i, c, h * w);
        assert(f(i / (h * w), i % (h * w)) == g(i / (h * w), i % (h * w)));
    }
    assert(a =~= b);
}

/// The element of a plane at a row and a column, of a tensor given by plane and position.
pub proof fn lemma_planes_at<T>(
    c: int,
    h: int,
    w: int,
    f: spec_fn(int, int) -> T,
    p: int,
    y: int,
    x: int,
)
    requires
        0 <= p < c,
        0 <= y < h,
        0 <= x < w,
    ensures
        planes(c, h, w, f).at(p, y, x) == f(p, y * w + x),
        0 <= y * w + x < h * w,
        (y * w + x) / w == y,
        (y * w + x) % w == x,
        0 <= p * (h * w) + (y * w + x) < c * (h * w),
        (p * (h * w) + (y * w + x)) / (h * w) == p,
        (p * (h * w) + (y * w + x)) % (h * w) == y * w + x,
{
    lemma_flat(y, h, x, w);
    lemma_unflat(y, x, w);
    lemma_flat(p, c, y * w + x, h * w);
    lemma_unflat(p, y * w + x, h * w);
}

/// `n` copies of `v`.
pub fn filled<T: Copy>(v: T, n: usize) -> (r: Vec<T>)
    ensures
        r@ == Seq::new(n as nat, |i: int| v),
{
    let mut r: Vec<T> = Vec::with_capacity(n);
    let mut i: usize = 0;
    while i < n
        invariant
            i <= n,
            r@ == Seq::new(i as nat, |j: int| v),
        decreases n - i,
    {
        r.push(v);
        i += 1;
    }
    r
}

/// The elements of a slice.
pub fn copied<T: Copy>(s: &[T]) -> (r: Vec<T>)
    ensures
        r@ == s@,
{
    let mut r: Vec<T> = Vec::with_capacity(s.len());
    let mut i: usize = 0;
    while i < s.len()
        invariant
            i <= s@.len(),
            r@ == s@.take(i as int),
        decreases s@.len() - i,
    {
        r.push(s[i]);
        i += 1;
    }
    r
}

/// Rows of equal length put one after the other.
pub(crate) fn assemble<T: Copy>(rows: &Vec<Vec<T>>, n: usize) -> (r: Vec<T>)
    requires
        forall|i: int| 0 <= i < rows@.len() ==> (#[trigger] rows@[i])@.len() == n,
        rows@.len() * n <= usize::MAX,
    ensures
        r@.len() == rows@.len() * n,
        forall|i: int| 0 <= i < r@.len() ==> #[trigger] r@[i] == rows@[i / n as int]@[i % n as int],
{
    let mut r: Vec<T> = Vec::with_capacity(rows.len() * n);
    let mut k: usize = 0;
    while k < rows.len()
        invariant
            k <= rows@.len(),
            forall|i: int| 0 <= i < rows@.len() ==> (#[trigger] rows@[i])@.len() == n,
            rows@.len() * n <= usize::MAX,
            r@.len() == k * n,
            forall|i: int|
                0 <= i < r@.len() ==> #[trigger] r@[i] == rows@[i / n as int]@[i % n as int],
        decreases rows@.len() - k,
    {
        let row = &rows[k];
        let ghost before = r@;
        let mut j: usize = 0;
        while j < n
            invariant
                j <= n,
                k < rows@.len(),
                row@ == rows@[k as int]@,
                row@.len() == n,
                before.len() == k * n,
                r@ == before + row@.take(j as int),
            decreases n - j,
        {
            r.push(row[j]);
            j += 1;
        }
        proof {
            assert((k + 1) * n == k * n + n) by (nonlinear_arith);
            assert(row@.take(n as int) == row@);
            assert forall|i: int| 0 <= i < r@.len() implies #[trigger] r@[i] == rows@[i
                / n as int]@[i % n as int] by {
                if i >= before.len() {
                    lemma_unflat(k as int, i - before.len(), n as int);
                } else {
                    assert(r@[i] == before[i]);
                }
            }
        }
        k += 1;
    }
    r
}

/// A tensor put together from one vector for each plane.
pub(crate) fn from_planes<T: Copy>(
    c: usize,
    h: usize,
    w: usize,
    rows: Vec<Vec<T>>,
) -> (r: Tensor<T>)
    requires
        dims_fit(c as int, h as int, w as int),
        rows@.len() == c,
        forall|i: int| 0 <= i < rows@.len() ==> (#[trigger] rows@[i])@.len() == h * w,
    ensures
        r@ == planes(c as int, h as int, w as int, |p: int, s: int| rows@[p]@[s]),
        r@.wf(),
{
    let data = assemble(&rows, h * w);
    Tensor { c, h, w, data }
}

impl<T: Scalar> Tensor<T> {
    /// A tensor of zeros.
    pub fn new(c: usize, h: usize, w: usize) -> (r: Tensor<T>)
        requires
            dims_fit(c as int, h as int, w as int),
        ensures
            r@.wf(),
            r.c == c && r.h == h && r.w == w,
            forall|m: Arith<T>| #[trigger]
                computes(m) ==> r@ == planes(
                    c as int,
                    h as int,
                    w as int,
                    |p: int, s: int| m.zero(),
                ),
    {
        let data = filled(T::from_bits(0), c * (h * w));
        let r = Tensor { c, h, w, data };
        assert forall|m: Arith<T>| #[trigger] computes(m) implies r@ == planes(
            c as int,
            h as int,
            w as int,
            |p: int, s: int| m.zero(),
        ) by {
            assert(
                r@.data =~= planes(c as int, h as int, w as int, |p: int, s: int| m.zero()).data
            );
        }
        r
    }
}

impl<T> Tensor<T> {
    /// A tensor with these elements.
    pub fn from_vec(c: usize, h: usize, w: usize, data: Vec<T>) -> (r: Tensor<T>)
        requires
            dims_fit(c as int, h as int, w as int),
            data@.len() == c * (h * w),
        ensures
            r@ == (Img { c: c as int, h: h as int, w: w as int, data: data@ }),
            r@.wf(),
    {
        Tensor { c, h, w, data }
    }

    /// Number of elements of a plane.
    pub fn hw(&self) -> (r: usize)
        requires
            self.h * self.w <= usize::MAX,
        ensures
            r == self@.hw(),
    {
        self.h * self.w
    }
}

} // verus!
