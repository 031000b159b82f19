//! The mask that keeps attention within the regions of an image that was turned round.

use crate::index::{lemma_flat, lemma_split, lemma_unflat};
use crate::parallel::par_map;
use crate::scalar::{computes, Arith, Scalar};
use crate::tensor::{assemble, filled};
use crate::windows::{split_column, split_row, WINDOW, WINDOW_AREA};
use vstd::prelude::*;

verus! {

/// Bit pattern of -100.
pub const MINUS_HUNDRED: u32 = 0xc2c8_0000;

/// Entries of the mask for one window.
pub const MASK_AREA: usize = 20736;

// ---- slices ---------------------------------------------------------------------------

/// The first position of a slice of `len` positions; a negative start counts from the end.
pub open spec fn slice_start(start: int, len: int) -> int {
    if start < 0 {
        if len + start < 0 {
            0
        } else {
            len + start
        }
    } else if start < len {
        start
    } else {
        len
    }
}

/// The position behind a slice of `len` positions; a negative end counts from the end,
/// and the largest integer stands for the end.
pub open spec fn slice_end(end: int, len: int) -> int {
    if end == isize::MAX {
        len
    } else if end < 0 {
        len + end
    } else if end < len {
        end
    } else {
        len
    }
}

/// The positions of a slice.
pub fn slice_bounds(start: isize, end: isize, len: usize) -> (r: Vec<usize>)
    requires
        len <= isize::MAX,
    ensures
        r@.len() == (if slice_start(start as int, len as int) < slice_end(end as int, len as int) {
            slice_end(end as int, len as int) - slice_start(start as int, len as int)
        } else {
            0
        }),
        forall|i: int|
            0 <= i < r@.len() ==> #[trigger] r@[i] == slice_start(start as int, len as int) + i,
{
    let l = len as isize;
    let s = if start < 0 {
        if l + start < 0 {
            0
        } else {
            l + start
        }
    } else if start < l {
        start
    } else {
        l
    };
    let e = if end == isize::MAX {
        l
    } else if end < 0 {
        l + end
    } else if end < l {
        end
    } else {
        l
    };
    let mut r: Vec<usize> = Vec::new();
    let mut v: isize = s;
    while v < e
        invariant
            0 <= s <= v,
            s == slice_start(start as int, len as int),
            e == slice_end(end as int, len as int),
            r@.len() == v - s,
            v > s ==> v <= e,
            forall|i: int| 0 <= i < r@.len() ==> #[trigger] r@[i] == s + i,
        decreases e - v,
    {
        r.push(v as usize);
        v += 1;
    }
    r
}

// ---- regions --------------------------------------------------------------------------

/// Which of three regions a position lies in, along one axis of `len` positions: the
/// last half window, the half window before it, or the rest.
pub open spec fn region(at: int, len: int) -> int {
    if at >= len - 6 {
        2
    } else if at >= len - 12 {
        1
    } else {
        0
    }
}

/// The region of every position along one axis.
fn regions(len: usize) -> (r: Vec<usize>)
    requires
        len <= isize::MAX,
    ensures
        r@.len() == len,
        forall|i: int| 0 <= i < len ==> #[trigger] r@[i] == region(i, len as int),
{
    let mut r: Vec<usize> = filled(0, len);
    let mut k: usize = 0;
    while k < 3
        invariant
            k <= 3,
            len <= isize::MAX,
            r@.len() == len,
            forall|i: int|
                0 <= i < len ==> (if region(i, len as int) < k {
                    #[trigger] r@[i] == region(i, len as int)
                } else {
                    r@[i] == 0
                }),
        decreases 3 - k,
    {
        let (start, end): (isize, isize) = if k == 0 {
            (0, -12)
        } else if k == 1 {
            (-12, -6)
        } else {
            (-6, isize::MAX)
        };
        let at = slice_bounds(start, end, len);
        let ghost before = r@;
        let ghost s = slice_start(start as int, len as int);
        let mut j: usize = 0;
        while j < at.len()
            invariant
                j <= at@.len(),
                0 <= s,
                s + at@.len() <= len,
                r@.len() == len,
                before.len() == len,
                forall|i: int| 0 <= i < at@.len() ==> #[trigger] at@[i] == s + i,
                forall|i: int|
                    0 <= i < len ==> #[trigger] r@[i] == (if s <= i < s + j {
                        k
                    } else {
                        before[i]
                    }),
            decreases at@.len() - j,
        {
            r.set(at[j], k);
            j += 1;
        }
        k += 1;
    }
    r
}

/// The region of position `i` of window `window`, of nine.
pub open spec fn label(hp: int, wp: int, window: int, i: int) -> int {
    let r = window * 144 + i;
    3 * region(split_row(r, wp), hp) + region(split_column(r, wp), wp)
}

/// The mask: for each window and each pair of its positions -100 where the two lie in
/// different regions, else zero.
pub open spec fn mask_spec<T>(m: Arith<T>, hp: int, wp: int) -> Seq<T> {
    Seq::new(
        ((hp / 12) * (wp / 12) * 20736) as nat,
        |k: int| mask_at(m, hp, wp, k / 20736, (k % 20736) / 144, (k % 20736) % 144),
    )
}

/// The entry of the mask for positions `i` and `j` of a window.
pub open spec fn mask_at<T>(m: Arith<T>, hp: int, wp: int, window: int, i: int, j: int) -> T {
    if label(hp, wp, window, i) != label(hp, wp, window, j) {
        (m.bits)(MINUS_HUNDRED)
    } else {
        m.zero()
    }
}

/// `v` is the part of the mask for one window.
spec fn is_mask_part<T: Scalar>(v: Seq<T>, hp: int, wp: int, window: int) -> bool {
    &&& v.len() == 20736
    &&& forall|m: Arith<T>| #[trigger]
        computes(m) ==> forall|k: int|
            0 <= k < 20736 ==> #[trigger] v[k] == mask_at(m, hp, wp, window, k / 144, k % 144)
}

fn mask_part<T: Scalar>(ys: &Vec<usize>, xs: &Vec<usize>, n: usize, window: usize) -> (v: Vec<T>)
    requires
        n == (ys@.len() as int / 12) * (xs@.len() as int / 12),
        window < n,
        forall|i: int| 0 <= i < ys@.len() ==> #[trigger] ys@[i] == region(i, ys@.len() as int),
        forall|i: int| 0 <= i < xs@.len() ==> #[trigger] xs@[i] == region(i, xs@.len() as int),
    ensures
        is_mask_part(v@, ys@.len() as int, xs@.len() as int, window as int),
{
    let ghost hp = ys@.len() as int;
    let ghost wp = xs@.len() as int;
    let nww = xs.len() / WINDOW;
    proof {
        lemma_split(window as int, hp / 12, wp / 12);
    }
    let mut labels: Vec<usize> = Vec::with_capacity(WINDOW_AREA);
    let mut i: usize = 0;
    while i < WINDOW_AREA
        invariant
            i <= WINDOW_AREA,
            hp == ys@.len() == ys.len(),
            wp == xs@.len() == xs.len(),
            nww == wp / 12,
            0 <= window as int / nww as int,
            window as int / (nww as int) < hp / 12,
            0 <= window as int % (nww as int),
            window as int % (nww as int) < nww,
            0 < nww,
            forall|i: int| 0 <= i < ys@.len() ==> #[trigger] ys@[i] == region(i, hp),
            forall|i: int| 0 <= i < xs@.len() ==> #[trigger] xs@[i] == region(i, wp),
            labels@.len() == i,
            forall|j: int| 0 <= j < i ==> #[trigger] labels@[j] == label(hp, wp, window as int, j),
        decreases WINDOW_AREA - i,
    {
        proof {
            lemma_unflat(window as int, i as int, 144);
        }
        let y = (window / nww) * WINDOW + i / WINDOW;
        let x = (window % nww) * WINDOW + i % WINDOW;
        assert(ys@[y as int] <= 2);
        assert(xs@[x as int] <= 2);
        labels.push(3 * ys[y] + xs[x]);
        i += 1;
    }
    let apart = T::from_bits(MINUS_HUNDRED);
    let zero = T::from_bits(0);
    let mut v: Vec<T> = Vec::with_capacity(MASK_AREA);
    let mut k: usize = 0;
    while k < MASK_AREA
        invariant
            k <= MASK_AREA,
            labels@.len() == 144,
            forall|j: int| 0 <= j < 144 ==> #[trigger] labels@[j] == label(
                hp,
                wp,
                window as int,
                j,
            ),
            forall|m: Arith<T>| #[trigger]
                computes(m) ==> zero == m.zero() && apart == (m.bits)(MINUS_HUNDRED),
            v@.len() == k,
            forall|m: Arith<T>| #[trigger]
                computes(m) ==> forall|j: int|
                    0 <= j < k ==> #[trigger] v@[j] == mask_at(
                        m,
                        hp,
                        wp,
                        window as int,
                        j / 144,
                        j % 144,
                    ),
        decreases MASK_AREA - k,
    {
        if labels[k / WINDOW_AREA] != labels[k % WINDOW_AREA] {
            v.push(apart);
        } else {
            v.push(zero);
        }
        k += 1;
    }
    v
}

/// The mask for a grid of `hp` by `wp` positions.
pub fn build_mask<T: Scalar>(hp: usize, wp: usize) -> (r: Vec<T>)
    requires
        hp <= isize::MAX,
        wp <= isize::MAX,
        (hp as int / 12) * (wp as int / 12) * 20736 <= usize::MAX,
    ensures
        r@.len() == (hp as int / 12) * (wp as int / 12) * 20736,
        forall|m: Arith<T>| #[trigger] computes(m) ==> r@ == mask_spec(m, hp as int, wp as int),
{
    let ys = regions(hp);
    let xs = regions(wp);
    proof {
        assert(0 <= (hp as int / 12) * (wp as int / 12)) by (nonlinear_arith);
    }
    let n = (hp / WINDOW) * (wp / WINDOW);
    let part = |window: usize| -> (v: Vec<T>)
        requires
            window < n,
        ensures
            is_mask_part(v@, hp as int, wp as int, window as int),
        { mask_part(&ys, &xs, n, window) };
    let parts = par_map(n, part);
    assert forall|i: int| 0 <= i < parts@.len() implies (#[trigger] parts@[i])@.len() == 20736 by {
        assert(is_mask_part(parts@[i as usize as int]@, hp as int, wp as int, i));
    }
    let out = assemble(&parts, MASK_AREA);
    assert forall|m: Arith<T>| #[trigger] computes(m) implies out@ == mask_spec(
        m,
        hp as int,
        wp as int,
    ) by {
        let want = mask_spec(m, hp as int, wp as int);
        assert forall|i: int| 0 <= i < out@.len() implies out@[i] == want[i] by {
            lemma_split(i, n as int, 20736);
            let p = (i / 20736) as usize;
            assert(is_mask_part(parts@[p as int]@, hp as int, wp as int, p as int));
        }
        assert(out@ =~= want);
    }
    out
}

// ---- laws -----------------------------------------------------------------------------

/// The mask treats the two positions of a pair alike, and never keeps a position from
/// itself.
pub proof fn lemma_mask_symmetric<T>(m: Arith<T>, hp: int, wp: int, window: int, i: int, j: int)
    ensures
        mask_at(m, hp, wp, window, i, j) == mask_at(m, hp, wp, window, j, i),
        mask_at(m, hp, wp, window, i, i) == m.zero(),
{
}

/// Within a window that touches neither the last row nor the last column of windows,
/// nothing is masked.
pub proof fn lemma_inner_windows_unmasked<T>(
    m: Arith<T>,
    hp: int,
    wp: int,
    window: int,
    i: int,
    j: int,
)
    requires
        0 < wp,
        hp % 12 == 0,
        wp % 12 == 0,
        0 <= window,
        window / (wp / 12) < hp / 12 - 1,
        window % (wp / 12) < wp / 12 - 1,
        0 <= i < 144,
        0 <= j < 144,
    ensures
        mask_at(m, hp, wp, window, i, j) == m.zero(),
{
    lemma_unflat(window, i, 144);
    lemma_unflat(window, j, 144);
}

/// The entry for positions `i` and `j` of a window stands where attention looks for it.
pub proof fn lemma_mask_entry<T>(m: Arith<T>, hp: int, wp: int, window: int, i: int, j: int)
    requires
        0 <= window < (hp / 12) * (wp / 12),
        0 <= i < 144,
        0 <= j < 144,
    ensures
        mask_spec(m, hp, wp)[window * 20736 + (i * 144 + j)] == mask_at(m, hp, wp, window, i, j),
{
    lemma_flat(i, 144, j, 144);
    lemma_unflat(i, j, 144);
    lemma_flat(window, (hp / 12) * (wp / 12), i * 144 + j, 20736);
    lemma_unflat(window, i * 144 + j, 20736);
}

} // verus!
