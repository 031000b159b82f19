//! Operations that only move elements: concatenation, tiling, and the change
//! between planes and tokens.

use crate::index::{lemma_flat, lemma_split, lemma_unflat};
use crate::scalar::{computes, Arith, Scalar};
use crate::tensor::{dims_fit, from_planes, lemma_planes_eq, planes, Img, Tensor};
use vstd::prelude::*;

verus! {

// ---- concatenation along the planes ---------------------------------------------------

/// The tensors as mathematical values.
pub open spec fn views<T>(parts: Seq<&Tensor<T>>) -> Seq<Img<T>> {
    parts.map_values(|t: &Tensor<T>| t@)
}

/// Number of planes of the first `n` parts.
pub open spec fn cat_c<T>(parts: Seq<Img<T>>, n: int) -> int
    decreases n,
{
    if n <= 0 {
        0
    } else {
        cat_c(parts, n - 1) + parts[n - 1].c
    }
}

/// The planes of the first `n` parts, one after the other.
pub open spec fn cat_data<T>(parts: Seq<Img<T>>, n: int) -> Seq<T>
    decreases n,
{
    if n <= 0 {
        Seq::empty()
    } else {
        cat_data(parts, n - 1) + parts[n - 1].data
    }
}

/// All planes of all parts in order.
pub open spec fn cat_spec<T>(parts: Seq<Img<T>>) -> Img<T> {
    Img {
        c: cat_c(parts, parts.len() as int),
        h: parts[0].h,
        w: parts[0].w,
        data: cat_data(parts, parts.len() as int),
    }
}

/// The parts can be concatenated: there is one, all have the same rows and columns,
/// and the whole has a length that the machine can hold.
pub open spec fn cat_fits<T>(parts: Seq<Img<T>>) -> bool {
    &&& 0 < parts.len()
    &&& forall|i: int|
        0 <= i < parts.len() ==> {
            &&& (#[trigger] parts[i]).wf()
            &&& parts[i].h == parts[0].h
            &&& parts[i].w == parts[0].w
        }
    &&& dims_fit(cat_c(parts, parts.len() as int), parts[0].h, parts[0].w)
}

/// The lengths of the parts add up.
proof fn lemma_cat_len<T>(parts: Seq<Img<T>>, n: int)
    requires
        0 <= n <= parts.len(),
        forall|i: int|
            0 <= i < parts.len() ==> {
                &&& (#[trigger] parts[i]).wf()
                &&& parts[i].h == parts[0].h
                &&& parts[i].w == parts[0].w
            },
    ensures
        0 <= cat_c(parts, n),
        cat_data(parts, n).len() == cat_c(parts, n) * parts[0].hw(),
    decreases n,
{
    if n > 0 {
        lemma_cat_len(parts, n - 1);
        let a = cat_c(parts, n - 1);
        let b = parts[n - 1].c;
        let hw = parts[0].hw();
        assert((a + b) * hw == a * hw + b * hw) by (nonlinear_arith);
        assert(parts[n - 1].wf());
    } else {
        assert(0 * parts[0].hw() == 0) by (nonlinear_arith);
    }
}

proof fn lemma_cat_grows<T>(parts: Seq<Img<T>>, n: int, k: int)
    requires
        0 <= n <= k <= parts.len(),
        forall|i: int| 0 <= i < parts.len() ==> 0 <= (#[trigger] parts[i]).c,
    ensures
        0 <= cat_c(parts, n) <= cat_c(parts, k),
    decreases k,
{
    if k > 0 {
        if n < k {
            lemma_cat_grows(parts, n, k - 1);
        } else {
            lemma_cat_grows(parts, n - 1, k - 1);
        }
        assert(0 <= parts[k - 1].c);
    }
}

/// Concatenation along the planes.
pub fn cat_channels<T: Copy>(parts: &[&Tensor<T>]) -> (r: Tensor<T>)
    requires
        cat_fits(views(parts@)),
    ensures
        r@.wf(),
        r@ == cat_spec(views(parts@)),
{
    let ghost v = views(parts@);
    assert(v[0] == parts@[0]@);
    let h = parts[0].h;
    let w = parts[0].w;
    let mut c: usize = 0;
    let mut data: Vec<T> = Vec::new();
    let mut k: usize = 0;
    while k < parts.len()
        invariant
            k <= parts@.len(),
            v == views(parts@),
            cat_fits(v),
            c == cat_c(v, k as int),
            data@ == cat_data(v, k as int),
        decreases parts@.len() - k,
    {
        let t: &Tensor<T> = parts[k];
        assert(v[k as int] == t@);
        proof {
            assert forall|i: int| 0 <= i < v.len() implies 0 <= (#[trigger] v[i]).c by {
                assert(v[i].wf());
            }
            lemma_cat_grows(v, k as int, v.len() as int);
            lemma_cat_grows(v, k + 1, v.len() as int);
        }
        let ghost before = data@;
        let mut i: usize = 0;
        while i < t.data.len()
            invariant
                i <= t.data@.len(),
                data@ == before + t.data@.take(i as int),
            decreases t.data@.len() - i,
        {
            data.push(t.data[i]);
            i += 1;
        }
        assert(t.data@.take(t.data@.len() as int) == t.data@);
        c = c + t.c;
        k += 1;
    }
    proof {
        lemma_cat_len(v, v.len() as int);
    }
    Tensor { c, h, w, data }
}

/// The tensors as mathematical values.
pub open spec fn imgs<T>(parts: Seq<Tensor<T>>) -> Seq<Img<T>> {
    parts.map_values(|t: Tensor<T>| t@)
}

/// Concatenation of owned tensors along the planes.
pub fn cat_all<T: Copy>(parts: &Vec<Tensor<T>>) -> (r: Tensor<T>)
    requires
        cat_fits(imgs(parts@)),
    ensures
        r@.wf(),
        r@ == cat_spec(imgs(parts@)),
{
    let mut refs: Vec<&Tensor<T>> = Vec::with_capacity(parts.len());
    let mut i: usize = 0;
    while i < parts.len()
        invariant
            i <= parts@.len(),
            refs@.len() == i,
            forall|j: int| 0 <= j < i ==> (#[trigger] refs@[j])@ == parts@[j]@,
        decreases parts@.len() - i,
    {
        refs.push(&parts[i]);
        i += 1;
    }
    assert(views(refs@) =~= imgs(parts@));
    cat_channels(&refs)
}

/// Concatenation of two tensors along the planes.
pub fn cat_two<T: Copy>(a: &Tensor<T>, b: &Tensor<T>) -> (r: Tensor<T>)
    requires
        a@.wf(),
        b@.wf(),
        a.h == b.h && a.w == b.w,
        dims_fit(a.c + b.c, a.h as int, a.w as int),
    ensures
        r@.wf(),
        r.c == a.c + b.c && r.h == a.h && r.w == a.w,
        r@ == cat_spec(seq![a@, b@]),
{
    let parts: Vec<&Tensor<T>> = vec![a, b];
    proof {
        assert(views(parts@) =~= seq![a@, b@]);
        let v = seq![a@, b@];
        reveal_with_fuel(cat_c, 3);
        assert(v[0] == a@ && v[1] == b@);
        assert(cat_c(v, 2) == a.c + b.c);
    }
    cat_channels(&parts)
}

/// Plane `q` of part `k` is plane `cat_c(parts, k) + q` of the concatenation.
pub proof fn lemma_cat_plane<T>(parts: Seq<Img<T>>, k: int, q: int, s: int)
    requires
        cat_fits(parts),
        0 <= k < parts.len(),
        0 <= q < parts[k].c,
        0 <= s < parts[0].hw(),
    ensures
        cat_spec(parts).data[(cat_c(parts, k) + q) * parts[0].hw() + s] == parts[k].data[q
            * parts[0].hw() + s],
{
    lemma_cat_plane_within(parts, k, q, s, parts.len() as int);
}

proof fn lemma_cat_plane_within<T>(parts: Seq<Img<T>>, k: int, q: int, s: int, n: int)
    requires
        cat_fits(parts),
        0 <= k < n <= parts.len(),
        0 <= q < parts[k].c,
        0 <= s < parts[0].hw(),
    ensures
        0 <= (cat_c(parts, k) + q) * parts[0].hw() + s < cat_data(parts, n).len(),
        cat_data(parts, n)[(cat_c(parts, k) + q) * parts[0].hw() + s] == parts[k].data[q
            * parts[0].hw() + s],
    decreases n,
{
    let hw = parts[0].hw();
    lemma_cat_len(parts, n - 1);
    lemma_cat_len(parts, k);
    assert(parts[k].wf());
    lemma_flat(q, parts[k].c, s, hw);
    let at = (cat_c(parts, k) + q) * hw + s;
    assert(at == cat_c(parts, k) * hw + (q * hw + s)) by (nonlinear_arith)
        requires
            at == (cat_c(parts, k) + q) * hw + s,
    ;
    if n - 1 > k {
        lemma_cat_plane_within(parts, k, q, s, n - 1);
    }
}

// ---- tiling ---------------------------------------------------------------------------

/// Number of steps of `size` that cover `len`.
pub open spec fn steps(len: int, size: int) -> int {
    (len + size - 1) / size
}

/// Element `s` of tile plane `q`. The tiles come column of tiles by column of
/// tiles, and each tile has all `x.c` planes. What lies outside the image is zero.
pub open spec fn tile_at<T>(m: Arith<T>, x: Img<T>, ph: int, pw: int, q: int, s: int) -> T {
    let plane = q % x.c;
    let tile = q / x.c;
    let row = (tile % steps(x.h, ph)) * ph + s / pw;
    let col = (tile / steps(x.h, ph)) * pw + s % pw;
    if row < x.h && col < x.w {
        x.data[plane * x.hw() + (row * x.w + col)]
    } else {
        m.zero()
    }
}

/// The image cut into tiles of `ph` rows and `pw` columns, the tiles stacked along
/// the planes.
pub open spec fn patches_spec<T>(m: Arith<T>, x: Img<T>, ph: int, pw: int) -> Img<T> {
    planes(
        x.c * steps(x.h, ph) * steps(x.w, pw),
        ph,
        pw,
        |q: int, s: int| tile_at(m, x, ph, pw, q, s),
    )
}

/// The dimensions on which tiling is defined.
pub open spec fn patches_fits(c: int, h: int, w: int, ph: int, pw: int) -> bool {
    &&& 0 < ph
    &&& 0 < pw
    &&& dims_fit(c * steps(h, ph) * steps(w, pw), ph, pw)
}

/// Number of steps of `size` that cover `len`.
pub(crate) fn steps_to_cover(len: usize, size: usize) -> (r: usize)
    requires
        0 < size,
    ensures
        r == steps(len as int, size as int),
        r <= len,
{
    let whole = len / size;
    let rest = len % size;
    proof {
        let (n, k) = (len as int, size as int);
        vstd::arithmetic::div_mod::lemma_fundamental_div_mod(n, k);
        let q = n / k;
        let t = n % k;
        assert(q * k == k * q) by (nonlinear_arith);
        if t == 0 {
            lemma_unflat(q, k - 1, k);
        } else {
            assert((q + 1) * k == q * k + k) by (nonlinear_arith);
            lemma_unflat(q + 1, t - 1, k);
        }
        assert(q <= q * k) by (nonlinear_arith)
            requires
                0 <= q,
                1 <= k,
        ;
    }
    if rest == 0 {
        whole
    } else {
        whole + 1
    }
}

fn tile_plane<T: Scalar>(x: &Tensor<T>, ph: usize, pw: usize, nrow: usize, q: usize) -> (r: Vec<T>)
    requires
        x@.wf(),
        0 < ph,
        0 < pw,
        0 < x.c,
        0 < nrow,
        nrow == steps(x.h as int, ph as int),
        ph * pw <= usize::MAX,
    ensures
        r@.len() == ph * pw,
        forall|m: Arith<T>| #[trigger]
            computes(m) ==> forall|s: int|
                0 <= s < r@.len() ==> #[trigger] r@[s] == tile_at(
                    m,
                    x@,
                    ph as int,
                    pw as int,
                    q as int,
                    s,
                ),
{
    let zero = T::from_bits(0);
    let hw = x.hw();
    let plane = q % x.c;
    let tile = q / x.c;
    let ch = tile % nrow;
    let cw = tile / nrow;
    let n = ph * pw;
    let mut r: Vec<T> = Vec::with_capacity(n);
    let mut s: usize = 0;
    while s < n
        invariant
            s <= n,
            n == ph * pw,
            0 < pw,
            0 < ph,
            0 < x.c,
            hw == x@.hw(),
            x@.wf(),
            plane == q as int % x.c as int,
            plane < x.c,
            tile == q as int / x.c as int,
            nrow == steps(x.h as int, ph as int),
            ch == tile as int % nrow as int,
            cw == tile as int / nrow as int,
            forall|m: Arith<T>| #[trigger] computes(m) ==> zero == m.zero(),
            r@.len() == s,
            forall|m: Arith<T>| #[trigger]
                computes(m) ==> forall|t: int|
                    0 <= t < s ==> #[trigger] r@[t] == tile_at(
                        m,
                        x@,
                        ph as int,
                        pw as int,
                        q as int,
                        t,
                    ),
        decreases n - s,
    {
        proof {
            lemma_split(s as int, ph as int, pw as int);
        }
        let v = match (inside(ch, ph, s / pw, x.h), inside(cw, pw, s % pw, x.w)) {
            (Some(iy), Some(ix)) => {
                proof {
                    lemma_flat(iy as int, x.h as int, ix as int, x.w as int);
                    lemma_flat(plane as int, x.c as int, iy * x.w + ix, hw as int);
                }
                x.data[plane * hw + (iy * x.w + ix)]
            },
            _ => zero,
        };
        r.push(v);
        s += 1;
    }
    r
}

/// The position of offset `j` of step `k`, where it lies within `len`.
fn inside(k: usize, size: usize, j: usize, len: usize) -> (r: Option<usize>)
    requires
        0 < size,
    ensures
        match r {
            Some(i) => i == k * size + j && i < len,
            None => k * size + j >= len,
        },
{
    match k.checked_mul(size) {
        Some(start) => if start < len && j < len - start {
            Some(start + j)
        } else {
            None
        },
        None => None,
    }
}

/// The image cut into tiles, and the tiles stacked along the planes: plane
/// `(cw * nrow + ch) * c + p` of the result is plane `p` of the tile in row `ch` and
/// column `cw` of the tiling.
pub fn get_patches_batch<T: Scalar>(x: &Tensor<T>, ph: usize, pw: usize) -> (r: Tensor<T>)
    requires
        x@.wf(),
        patches_fits(x.c as int, x.h as int, x.w as int, ph as int, pw as int),
    ensures
        r@.wf(),
        r.c == x.c * steps(x.h as int, ph as int) * steps(x.w as int, pw as int),
        r.h == ph && r.w == pw,
        forall|m: Arith<T>| #[trigger]
            computes(m) ==> r@ == patches_spec(m, x@, ph as int, pw as int),
{
    let nrow = steps_to_cover(x.h, ph);
    let ncol = steps_to_cover(x.w, pw);
    let total = count3(x.c, nrow, ncol);
    let mut rows: Vec<Vec<T>> = Vec::with_capacity(total);
    let mut q: usize = 0;
    while q < total
        invariant
            q <= total,
            total == x.c * nrow * ncol,
            x@.wf(),
            0 < ph,
            0 < pw,
            ph * pw <= usize::MAX,
            nrow == steps(x.h as int, ph as int),
            rows@.len() == q,
            forall|i: int| 0 <= i < q ==> (#[trigger] rows@[i])@.len() == ph * pw,
            forall|m: Arith<T>| #[trigger]
                computes(m) ==> forall|i: int, s: int|
                    0 <= i < q && 0 <= s < ph * pw ==> #[trigger] rows@[i]@[s] == tile_at(
                        m,
                        x@,
                        ph as int,
                        pw as int,
                        i,
                        s,
                    ),
        decreases total - q,
    {
        proof {
            assert(0 < x.c && 0 < nrow) by (nonlinear_arith)
                requires
                    0 < x.c * nrow * ncol,
            ;
        }
        rows.push(tile_plane(x, ph, pw, nrow, q));
        q += 1;
    }
    let r = from_planes(total, ph, pw, rows);
    assert forall|m: Arith<T>| #[trigger] computes(m) implies r@ == patches_spec(
        m,
        x@,
        ph as int,
        pw as int,
    ) by {
        let got = |p: int, s: int| rows@[p]@[s];
        let want = |p: int, s: int| tile_at(m, x@, ph as int, pw as int, p, s);
        assert forall|p: int, s: int|
            0 <= p < total && 0 <= s < ph * pw implies #[trigger] got(p, s) == want(p, s) by {
            assert(rows@[p]@[s] == tile_at(m, x@, ph as int, pw as int, p, s));
        }
        lemma_planes_eq(total as int, ph as int, pw as int, got, want);
    }
    r
}

/// The product of three numbers.
fn count3(a: usize, b: usize, c: usize) -> (r: usize)
    requires
        a * b * c <= usize::MAX,
    ensures
        r == a * b * c,
{
    if c == 0 {
        proof {
            assert(a * b * c == 0) by (nonlinear_arith)
                requires
                    c == 0,
            ;
        }
        0
    } else {
        proof {
            assert(a * b <= a * b * c) by (nonlinear_arith)
                requires
                    1 <= c,
                    0 <= a * b,
            ;
            assert(0 <= a * b) by (nonlinear_arith);
        }
        a * b * c
    }
}

/// Every element of the image is in exactly the tile that its row and column give:
/// element `(plane, row, col)` is in plane
/// `((col / pw) * nrow + row / ph) * c + plane`, at row `row % ph` and column
/// `col % pw`.
pub proof fn lemma_patches_hold_image<T>(
    m: Arith<T>,
    x: Img<T>,
    ph: int,
    pw: int,
    plane: int,
    row: int,
    col: int,
)
    requires
        x.wf(),
        patches_fits(x.c, x.h, x.w, ph, pw),
        0 <= plane < x.c,
        0 <= row < x.h,
        0 <= col < x.w,
    ensures
        ({
            let q = ((col / pw) * steps(x.h, ph) + row / ph) * x.c + plane;
            let s = (row % ph) * pw + col % pw;
            &&& 0 <= q < patches_spec(m, x, ph, pw).c
            &&& 0 <= s < ph * pw
            &&& patches_spec(m, x, ph, pw).data[q * (ph * pw) + s] == x.data[plane * x.hw() + (row
                * x.w + col)]
        }),
{
    let nrow = steps(x.h, ph);
    let ncol = steps(x.w, pw);
    lemma_step_of(row, x.h, ph);
    lemma_step_of(col, x.w, pw);
    let tile = (col / pw) * nrow + row / ph;
    let q = tile * x.c + plane;
    let s = (row % ph) * pw + col % pw;
    lemma_flat(col / pw, ncol, row / ph, nrow);
    lemma_unflat(col / pw, row / ph, nrow);
    lemma_flat(tile, ncol * nrow, plane, x.c);
    lemma_unflat(tile, plane, x.c);
    lemma_flat(row % ph, ph, col % pw, pw);
    lemma_unflat(row % ph, col % pw, pw);
    let total = x.c * nrow * ncol;
    assert(total == ncol * nrow * x.c) by (nonlinear_arith)
        requires
            total == x.c * nrow * ncol,
    ;
    lemma_flat(q, total, s, ph * pw);
    lemma_unflat(q, s, ph * pw);
}

/// A position below `len` lies in one of the steps that cover `len`.
proof fn lemma_step_of(i: int, len: int, size: int)
    requires
        0 <= i < len,
        0 < size,
    ensures
        0 <= i / size < steps(len, size),
        0 <= i % size < size,
        (i / size) * size + i % size == i,
{
    vstd::arithmetic::div_mod::lemma_fundamental_div_mod(i, size);
    vstd::arithmetic::div_mod::lemma_fundamental_div_mod(len + size - 1, size);
    let a = i / size;
    let b = (len + size - 1) / size;
    let ra = i % size;
    let rb = (len + size - 1) % size;
    assert(a < b && 0 <= a && a * size + ra == i) by (nonlinear_arith)
        requires
            i == size * a + ra,
            len + size - 1 == size * b + rb,
            0 <= ra < size,
            0 <= rb < size,
            0 <= i < len,
            0 < size,
    ;
}

// ---- planes and tokens ----------------------------------------------------------------

/// The tokens of an image: one for each position, holding the element of each plane.
pub open spec fn tokens_of<T>(x: Img<T>) -> Seq<T> {
    Seq::new(x.data.len(), |i: int| x.data[(i % x.c) * x.hw() + i / x.c])
}

/// The image of `c` planes that has these tokens.
pub open spec fn image_of<T>(t: Seq<T>, c: int, h: int, w: int) -> Img<T> {
    planes(c, h, w, |p: int, s: int| t[s * c + p])
}

/// The planes of an image as tokens.
pub fn nchw_to_tokens<T: Copy>(x: &Tensor<T>) -> (r: Vec<T>)
    requires
        x@.wf(),
    ensures
        r@ == tokens_of(x@),
{
    let hw = x.hw();
    let c = x.c;
    let n = x.data.len();
    let mut r: Vec<T> = Vec::with_capacity(n);
    let mut i: usize = 0;
    while i < n
        invariant
            i <= n,
            n == x.data@.len(),
            c == x.c,
            hw == x@.hw(),
            x@.wf(),
            r@.len() == i,
            forall|j: int| 0 <= j < i ==> #[trigger] r@[j] == tokens_of(x@)[j],
        decreases n - i,
    {
        proof {
            assert(c * hw == hw * c) by (nonlinear_arith);
            lemma_split(i as int, hw as int, c as int);
            lemma_flat(i as int % c as int, c as int, i as int / c as int, hw as int);
        }
        r.push(x.data[(i % c) * hw + i / c]);
        i += 1;
    }
    assert(r@ =~= tokens_of(x@));
    r
}

/// The planes of an image from its tokens.
pub fn tokens_to_nchw<T: Copy>(t: &Vec<T>, c: usize, h: usize, w: usize) -> (r: Tensor<T>)
    requires
        dims_fit(c as int, h as int, w as int),
        c * (h * w) <= t@.len(),
    ensures
        r@.wf(),
        r.c == c && r.h == h && r.w == w,
        r@ == image_of(t@, c as int, h as int, w as int),
{
    let hw = h * w;
    let n = c * hw;
    let mut data: Vec<T> = Vec::with_capacity(n);
    let mut i: usize = 0;
    while i < n
        invariant
            i <= n,
            n <= t@.len(),
            n == c * hw,
            hw == h * w,
            data@.len() == i,
            forall|j: int|
                0 <= j < i ==> #[trigger] data@[j] == image_of(
                    t@,
                    c as int,
                    h as int,
                    w as int,
                ).data[j],
        decreases n - i,
    {
        proof {
            assert(c * hw == hw * c) by (nonlinear_arith);
            lemma_split(i as int, c as int, hw as int);
            lemma_flat(i as int % hw as int, hw as int, i as int / hw as int, c as int);
        }
        data.push(t[(i % hw) * c + i / hw]);
        i += 1;
    }
    let r = Tensor { c, h, w, data };
    assert(r@.data =~= image_of(t@, c as int, h as int, w as int).data);
    r
}

/// An image is given back by its tokens.
pub proof fn lemma_image_of_tokens<T>(x: Img<T>)
    requires
        x.wf(),
    ensures
        image_of(tokens_of(x), x.c, x.h, x.w) == x,
{
    let back = image_of(tokens_of(x), x.c, x.h, x.w);
    let (c, hw) = (x.c, x.hw());
    assert forall|i: int| 0 <= i < x.data.len() implies back.data[i] == x.data[i] by {
        lemma_split(i, c, hw);
        assert(c * hw == hw * c) by (nonlinear_arith);
        lemma_flat(i % hw, hw, i / hw, c);
        lemma_unflat(i % hw, i / hw, c);
    }
    assert(back.data =~= x.data);
}

/// Tokens are given back by their image.
pub proof fn lemma_tokens_of_image<T>(t: Seq<T>, c: int, h: int, w: int)
    requires
        dims_fit(c, h, w),
        t.len() == c * (h * w),
    ensures
        tokens_of(image_of(t, c, h, w)) == t,
{
    let back = tokens_of(image_of(t, c, h, w));
    let hw = h * w;
    assert forall|i: int| 0 <= i < t.len() implies back[i] == t[i] by {
        assert(c * hw == hw * c) by (nonlinear_arith);
        lemma_split(i, hw, c);
        lemma_flat(i % c, c, i / c, hw);
        lemma_unflat(i % c, i / c, hw);
    }
    assert(back =~= t);
}

} // verus!
