//! Moving rows of features between an image and its windows.
//!
//! The features of an image stand row by row, one row of features for each position. A
//! `Move` says, for each row of the result, which row it comes from.

use crate::index::{lemma_flat, lemma_split, lemma_unflat};
use crate::scalar::{computes, Arith, Scalar};
use vstd::arithmetic::div_mod::{lemma_fundamental_div_mod, lemma_small_mod};
use vstd::prelude::*;

verus! {

/// Rows and columns of a window.
pub const WINDOW: usize = 12;

/// Positions of a window.
pub const WINDOW_AREA: usize = 144;

/// Where the rows of a result come from.
#[derive(Clone, Copy, Debug)]
pub enum Move {
    /// An image of `h` by `w` positions within one of `wp` columns, with zeros elsewhere.
    Pad { h: usize, w: usize, wp: usize },
    /// An image of `hp` by `wp` positions turned round by `by` positions both ways.
    Roll { hp: usize, wp: usize, by: usize },
    /// The windows of an image of `wp` columns, one after the other.
    Split { wp: usize },
    /// An image of `wp` columns from its windows.
    Merge { wp: usize },
    /// An image of `hp` by `wp` positions turned back by `by` positions both ways.
    Unroll { hp: usize, wp: usize, by: usize },
    /// The four positions of each block of 2 by 2 positions of an image of `h` by `w`, down
    /// the first column and then down the second, with zeros outside the image.
    Fold { h: usize, w: usize },
}

impl Move {
    /// The row that row `r` of the result comes from, `None` for a row of zeros.
    pub open spec fn from(self, r: int) -> Option<int> {
        match self {
            Move::Pad { h, w, wp } => {
                let y = r / wp as int;
                let x = r % wp as int;
                if y < h && x < w {
                    Some(y * w + x)
                } else {
                    None
                }
            },
            Move::Roll { hp, wp, by } => {
                let y = r / wp as int;
                let x = r % wp as int;
                Some(((y + by) % hp as int) * wp + (x + by) % wp as int)
            },
            Move::Split { wp } => Some(split_row(r, wp as int) * wp + split_column(r, wp as int)),
            Move::Merge { wp } => {
                let y = r / wp as int;
                let x = r % wp as int;
                let window = (y / 12) * (wp as int / 12) + x / 12;
                Some(window * 144 + ((y % 12) * 12 + x % 12))
            },
            Move::Unroll { hp, wp, by } => {
                let y = r / wp as int;
                let x = r % wp as int;
                Some(((y + hp - by) % hp as int) * wp + (x + wp - by) % wp as int)
            },
            Move::Fold { h, w } => {
                let area = half(h as int) * half(w as int);
                let y = 2 * ((r / 4 % area) / half(w as int)) + r % 4 % 2;
                let x = 2 * ((r / 4 % area) % half(w as int)) + r % 4 / 2;
                if y < h && x < w {
                    Some((r / 4 / area) * (h * w) + (y * w + x))
                } else {
                    None
                }
            },
        }
    }

    /// The move makes `n` rows out of `k`.
    pub open spec fn makes(self, n: int, k: int) -> bool {
        0 < n ==> match self {
            Move::Pad { h, w, wp } => 0 < wp && h * w <= k,
            Move::Roll { hp, wp, by } => {
                &&& n == hp * wp
                &&& hp * wp <= k
                &&& hp + by <= usize::MAX
                &&& wp + by <= usize::MAX
            },
            Move::Split { wp } => {
                &&& wp % 12 == 0
                &&& 0 < wp
                &&& exists|rows: int|
                    n == #[trigger] (rows * (wp as int / 12)) * 144 && 12 * rows * wp <= k
            },
            Move::Merge { wp } => {
                &&& wp % 12 == 0
                &&& 0 < wp
                &&& exists|rows: int|
                    n == 12 * rows * wp && #[trigger] (rows * (wp as int / 12)) * 144 <= k
            },
            Move::Unroll { hp, wp, by } => {
                &&& n == hp * wp
                &&& hp * wp <= k
                &&& by <= hp
                &&& by <= wp
                &&& 2 * hp <= usize::MAX
                &&& 2 * wp <= usize::MAX
            },
            Move::Fold { h, w } => {
                &&& half(h as int) * half(w as int) <= usize::MAX
                &&& h * w <= usize::MAX
                &&& exists|b: int|
                    n == #[trigger] (b * (half(h as int) * half(w as int))) * 4 && b * (h * w) <= k
            },
        }
    }
}

/// Half of a number, rounded up.
pub open spec fn half(n: int) -> int {
    (n + 1) / 2
}

/// The row of the image that position `r` of the windows lies in.
pub open spec fn split_row(r: int, wp: int) -> int {
    ((r / 144) / (wp / 12)) * 12 + (r % 144) / 12
}

/// The column of the image that position `r` of the windows lies in.
pub open spec fn split_column(r: int, wp: int) -> int {
    ((r / 144) % (wp / 12)) * 12 + (r % 144) % 12
}

/// Position `r` of the windows of an image lies within the image.
pub proof fn lemma_split_within(r: int, rows: int, wp: int)
    requires
        0 <= r < (rows * (wp / 12)) * 144,
        0 < wp,
        wp % 12 == 0,
    ensures
        0 <= split_row(r, wp) < 12 * rows,
        0 <= split_column(r, wp) < wp,
        0 <= split_row(r, wp) * wp + split_column(r, wp) < 12 * rows * wp,
{
    let nww = wp / 12;
    let window = r / 144;
    lemma_split(r, rows * nww, 144);
    lemma_split(window, rows, nww);
    let y = split_row(r, wp);
    let x = split_column(r, wp);
    assert(0 <= y < 12 * rows);
    assert(0 <= x < wp);
    lemma_flat(y, 12 * rows, x, wp);
}

/// The place of an image position among the windows lies within the windows.
pub proof fn lemma_merge_within(r: int, rows: int, wp: int)
    requires
        0 <= r < 12 * rows * wp,
        0 < wp,
        wp % 12 == 0,
    ensures
        0 <= ((r / wp) / 12) * (wp / 12) + (r % wp) / 12 < rows * (wp / 12),
        0 <= (((r / wp) / 12) * (wp / 12) + (r % wp) / 12) * 144 + (((r / wp) % 12) * 12 + (r % wp)
            % 12) < (rows * (wp / 12)) * 144,
{
    lemma_split(r, 12 * rows, wp);
    let y = r / wp;
    let x = r % wp;
    let nww = wp / 12;
    lemma_flat(y / 12, rows, x / 12, nww);
    let window = (y / 12) * nww + x / 12;
    lemma_flat(window, rows * nww, (y % 12) * 12 + x % 12, 144);
}

/// The parts that row `r` of a folded image is found from lie in bounds.
proof fn lemma_fold_within(r: int, b: int, h: int, w: int)
    requires
        0 <= h,
        0 <= w,
        0 <= r < (b * (half(h) * half(w))) * 4,
    ensures
        0 <= r / 4 / (half(h) * half(w)) < b,
        0 <= (r / 4 % (half(h) * half(w))) / half(w) < half(h),
        0 <= (r / 4 % (half(h) * half(w))) % half(w) < half(w),
        0 < half(h) * half(w),
        ({
            let y = 2 * ((r / 4 % (half(h) * half(w))) / half(w)) + r % 4 % 2;
            let x = 2 * ((r / 4 % (half(h) * half(w))) % half(w)) + r % 4 / 2;
            y < h && x < w ==> {
                &&& 0 <= y * w + x < h * w
                &&& 0 <= y * w
                &&& 0 <= (r / 4 / (half(h) * half(w))) * (h * w)
                &&& 0 <= (r / 4 / (half(h) * half(w))) * (h * w) + (y * w + x) < b * (h * w)
            }
        }),
{
    let area = half(h) * half(w);
    assert(0 <= area) by (nonlinear_arith)
        requires
            area == half(h) * half(w),
            0 <= half(h),
            0 <= half(w),
    ;
    lemma_split(r / 4, b, area);
    lemma_split(r / 4 % area, half(h), half(w));
    let y = 2 * ((r / 4 % area) / half(w)) + r % 4 % 2;
    let x = 2 * ((r / 4 % area) % half(w)) + r % 4 / 2;
    if y < h && x < w {
        lemma_flat(y, h, x, w);
        lemma_flat(r / 4 / area, b, y * w + x, h * w);
    }
}

impl Move {
    /// Where the move finds a row, it finds it among the rows there are.
    pub proof fn lemma_from_within(self, r: int, n: int, k: int)
        requires
            0 <= r < n,
            self.makes(n, k),
        ensures
            self.from(r) matches Some(s) ==> 0 <= s < k,
    {
        match self {
            Move::Pad { h, w, wp } => {
                lemma_fundamental_div_mod(r, wp as int);
                let y = r / wp as int;
                let x = r % wp as int;
                assert(0 <= y) by (nonlinear_arith)
                    requires
                        r == wp * y + x,
                        0 <= r,
                        x < wp,
                        0 < wp,
                ;
                if y < h && x < w {
                    lemma_flat(y, h as int, x, w as int);
                }
            },
            Move::Roll { hp, wp, by } => {
                lemma_split(r, hp as int, wp as int);
                let y = (r / wp as int + by) % hp as int;
                let x = (r % wp as int + by) % wp as int;
                lemma_flat(y, hp as int, x, wp as int);
            },
            Move::Split { wp } => {
                let rows = choose|rows: int|
                    n == #[trigger] (rows * (wp as int / 12)) * 144 && 12 * rows * wp <= k;
                lemma_split_within(r, rows, wp as int);
            },
            Move::Merge { wp } => {
                let rows = choose|rows: int|
                    n == 12 * rows * wp && #[trigger] (rows * (wp as int / 12)) * 144 <= k;
                lemma_merge_within(r, rows, wp as int);
            },
            Move::Unroll { hp, wp, by } => {
                lemma_split(r, hp as int, wp as int);
                let y = (r / wp as int + hp - by) % hp as int;
                let x = (r % wp as int + wp - by) % wp as int;
                lemma_flat(y, hp as int, x, wp as int);
            },
            Move::Fold { h, w } => {
                let area = half(h as int) * half(w as int);
                let b = choose|b: int|
                    n == #[trigger] (b * (half(h as int) * half(w as int))) * 4 && b * (h * w)
                        <= k;
                lemma_fold_within(r, b, h as int, w as int);
            },
        }
    }

    /// Finds the row that row `r` of the result comes from.
    fn source(&self, r: usize, n: usize, k: usize) -> (s: Option<usize>)
        requires
            r < n,
            self.makes(n as int, k as int),
        ensures
            match s {
                Some(s) => self.from(r as int) == Some(s as int) && s < k,
                None => self.from(r as int) is None,
            },
    {
        proof {
            self.lemma_from_within(r as int, n as int, k as int);
        }
        match *self {
            Move::Pad { h, w, wp } => {
                let y = r / wp;
                let x = r % wp;
                if y < h && x < w {
                    proof {
                        assert(0 <= y * w) by (nonlinear_arith);
                    }
                    Some(y * w + x)
                } else {
                    None
                }
            },
            Move::Roll { hp, wp, by } => {
                proof {
                    lemma_split(r as int, hp as int, wp as int);
                }
                let y = (r / wp + by) % hp;
                let x = (r % wp + by) % wp;
                proof {
                    assert(0 <= y * wp) by (nonlinear_arith);
                }
                Some(y * wp + x)
            },
            Move::Split { wp } => {
                proof {
                    let rows = choose|rows: int|
                        n == #[trigger] (rows * (wp as int / 12)) * 144 && 12 * rows * wp <= k;
                    lemma_split_within(r as int, rows, wp as int);
                    lemma_split(r as int, rows * (wp as int / 12), 144);
                    lemma_split(r as int / 144, rows, wp as int / 12);
                    let y = split_row(r as int, wp as int);
                    assert(y <= y * wp) by (nonlinear_arith)
                        requires
                            0 <= y,
                            1 <= wp,
                    ;
                }
                let window = r / WINDOW_AREA;
                let y = (window / (wp / WINDOW)) * WINDOW + (r % WINDOW_AREA) / WINDOW;
                let x = (window % (wp / WINDOW)) * WINDOW + (r % WINDOW_AREA) % WINDOW;
                Some(y * wp + x)
            },
            Move::Merge { wp } => {
                proof {
                    let rows = choose|rows: int|
                        n == 12 * rows * wp && #[trigger] (rows * (wp as int / 12)) * 144 <= k;
                    lemma_merge_within(r as int, rows, wp as int);
                    lemma_split(r as int, 12 * rows, wp as int);
                    assert(0 <= ((r as int / wp as int) / 12) * (wp as int / 12))
                        by (nonlinear_arith)
                        requires
                            0 <= r as int / wp as int,
                            0 < wp,
                    ;
                }
                let y = r / wp;
                let x = r % wp;
                let window = (y / WINDOW) * (wp / WINDOW) + x / WINDOW;
                Some(window * WINDOW_AREA + ((y % WINDOW) * WINDOW + x % WINDOW))
            },
            Move::Unroll { hp, wp, by } => {
                proof {
                    lemma_split(r as int, hp as int, wp as int);
                }
                let y = (r / wp + hp - by) % hp;
                let x = (r % wp + wp - by) % wp;
                proof {
                    assert(0 <= y * wp) by (nonlinear_arith);
                }
                Some(y * wp + x)
            },
            Move::Fold { h, w } => {
                proof {
                    let b = choose|b: int|
                        n == #[trigger] (b * (half(h as int) * half(w as int))) * 4 && b * (h * w)
                            <= k;
                    lemma_fold_within(r as int, b, h as int, w as int);
                }
                let hw = half_up(w);
                let area = half_up(h) * hw;
                let y = 2 * ((r / 4 % area) / hw) + r % 4 % 2;
                let x = 2 * ((r / 4 % area) % hw) + r % 4 / 2;
                if y < h && x < w {
                    Some((r / 4 / area) * (h * w) + (y * w + x))
                } else {
                    None
                }
            },
        }
    }
}

/// Half of a number, rounded up.
pub fn half_up(n: usize) -> (r: usize)
    ensures
        r == half(n as int),
{
    n / 2 + n % 2
}

/// `n` rows of `c` elements, each from where the move finds it in `src`.
pub open spec fn moved<T>(m: Arith<T>, src: Seq<T>, c: int, n: int, mv: Move) -> Seq<T> {
    Seq::new(
        (n * c) as nat,
        |i: int|
            match mv.from(i / c) {
                Some(r) => src[r * c + i % c],
                None => m.zero(),
            },
    )
}

/// Moves rows of `c` elements: `n` rows out of the `k` that `src` has.
pub fn move_rows<T: Scalar>(src: &Vec<T>, c: usize, k: usize, n: usize, mv: Move) -> (r: Vec<T>)
    requires
        mv.makes(n as int, k as int),
        k * c <= src@.len(),
        n * c <= usize::MAX,
    ensures
        r@.len() == n * c,
        forall|m: Arith<T>| #[trigger]
            computes(m) ==> r@ == moved(m, src@, c as int, n as int, mv),
{
    let zero = T::from_bits(0);
    let mut out: Vec<T> = Vec::with_capacity(n * c);
    let mut r: usize = 0;
    while r < n
        invariant
            r <= n,
            mv.makes(n as int, k as int),
            k * c <= src.len(),
            n * c <= usize::MAX,
            out@.len() == r * c,
            forall|m: Arith<T>| #[trigger] computes(m) ==> zero == m.zero(),
            forall|m: Arith<T>| #[trigger]
                computes(m) ==> forall|i: int|
                    0 <= i < r * c ==> #[trigger] out@[i] == moved(
                        m,
                        src@,
                        c as int,
                        n as int,
                        mv,
                    )[i],
        decreases n - r,
    {
        let from = mv.source(r, n, k);
        let ghost start = out@.len();
        let mut j: usize = 0;
        proof {
            assert((r + 1) * c == r * c + c) by (nonlinear_arith);
            assert((r + 1) * c <= n * c) by (nonlinear_arith)
                requires
                    r < n,
            ;
        }
        while j < c
            invariant
                j <= c,
                r < n,
                start == r * c,
                start + c <= n * c,
                k * c <= src.len(),
                match from {
                    Some(s) => mv.from(r as int) == Some(s as int) && s < k,
                    None => mv.from(r as int) is None,
                },
                out@.len() == start + j,
                forall|m: Arith<T>| #[trigger] computes(m) ==> zero == m.zero(),
                forall|m: Arith<T>| #[trigger]
                    computes(m) ==> forall|i: int|
                        0 <= i < start + j ==> #[trigger] out@[i] == moved(
                            m,
                            src@,
                            c as int,
                            n as int,
                            mv,
                        )[i],
            decreases c - j,
        {
            proof {
                lemma_unflat(r as int, j as int, c as int);
            }
            match from {
                Some(s) => {
                    proof {
                        lemma_flat(s as int, k as int, j as int, c as int);
                    }
                    out.push(src[s * c + j]);
                },
                None => {
                    out.push(zero);
                },
            }
            j += 1;
        }
        r += 1;
    }
    assert forall|m: Arith<T>| #[trigger] computes(m) implies out@ == moved(
        m,
        src@,
        c as int,
        n as int,
        mv,
    ) by {
        assert(out@ =~= moved(m, src@, c as int, n as int, mv));
    }
    out
}

// ---- laws -----------------------------------------------------------------------------

/// What is split into windows is put back by merging the windows: every position of an
/// image of `12 * rows` by `wp` positions comes back from where it went.
pub proof fn lemma_merge_undoes_split(r: int, rows: int, wp: usize)
    requires
        0 <= r < 12 * rows * wp,
        0 < wp,
        wp % 12 == 0,
    ensures
        (Move::Merge { wp }).from(r) matches Some(s) && (Move::Split { wp }).from(s) == Some(r),
{
    let nww = wp as int / 12;
    lemma_split(r, 12 * rows, wp as int);
    let y = r / wp as int;
    let x = r % wp as int;
    let window = (y / 12) * nww + x / 12;
    let k = (y % 12) * 12 + x % 12;
    lemma_unflat(window, k, 144);
    lemma_unflat(y / 12, x / 12, nww);
    lemma_fundamental_div_mod(r, wp as int);
    assert(y * wp == wp * y) by (nonlinear_arith);
}

/// Merging the windows of an image and splitting it again gives the same windows.
pub proof fn lemma_split_undoes_merge(r: int, rows: int, wp: usize)
    requires
        0 <= r < (rows * (wp as int / 12)) * 144,
        0 < wp,
        wp % 12 == 0,
    ensures
        (Move::Split { wp }).from(r) matches Some(s) && (Move::Merge { wp }).from(s) == Some(r),
{
    let nww = wp as int / 12;
    lemma_split_within(r, rows, wp as int);
    lemma_split(r, rows * nww, 144);
    lemma_split(r / 144, rows, nww);
    let y = split_row(r, wp as int);
    let x = split_column(r, wp as int);
    lemma_unflat(y, x, wp as int);
    lemma_fundamental_div_mod(r / 144, nww);
    let window = (y / 12) * nww + x / 12;
    assert(y / 12 == (r / 144) / nww);
    assert(x / 12 == (r / 144) % nww);
    assert(window == r / 144) by {
        assert(((r / 144) / nww) * nww == nww * ((r / 144) / nww)) by (nonlinear_arith);
    }
}

/// A position that is turned round and turned back, either way first, is where it was.
pub proof fn lemma_turned_back(a: int, by: int, n: int)
    requires
        0 <= a < n,
        0 <= by <= n,
    ensures
        ((a + n - by) % n + by) % n == a,
        ((a + by) % n + n - by) % n == a,
{
    if a < by {
        lemma_small_mod((a + n - by) as nat, n as nat);
        vstd::arithmetic::div_mod::lemma_mod_add_multiples_vanish(a, n);
    } else {
        vstd::arithmetic::div_mod::lemma_mod_add_multiples_vanish(a - by, n);
        lemma_small_mod((a - by) as nat, n as nat);
        lemma_small_mod(a as nat, n as nat);
    }
    lemma_small_mod(a as nat, n as nat);
    if a + by < n {
        lemma_small_mod((a + by) as nat, n as nat);
        vstd::arithmetic::div_mod::lemma_mod_add_multiples_vanish(a, n);
    } else {
        vstd::arithmetic::div_mod::lemma_mod_add_multiples_vanish(a + by - n, n);
        if a + by - n < n {
            lemma_small_mod((a + by - n) as nat, n as nat);
        }
    }
}

/// An image that is turned round and turned back is the same.
pub proof fn lemma_unroll_undoes_roll(r: int, hp: usize, wp: usize, by: usize)
    requires
        0 <= r < hp * wp,
        by <= hp,
        by <= wp,
    ensures
        (Move::Unroll { hp, wp, by }).from(r) matches Some(s) && (Move::Roll { hp, wp, by }).from(s)
            == Some(r),
{
    lemma_split(r, hp as int, wp as int);
    let y = r / wp as int;
    let x = r % wp as int;
    lemma_turned_back(y, by as int, hp as int);
    lemma_turned_back(x, by as int, wp as int);
    lemma_unflat((y + hp - by) % hp as int, (x + wp - by) % wp as int, wp as int);
    lemma_fundamental_div_mod(r, wp as int);
    assert(y * wp == wp * y) by (nonlinear_arith);
}

/// The position of an image within the padded image holds what the image holds there.
pub proof fn lemma_pad_keeps(r: int, h: usize, w: usize, wp: usize)
    requires
        0 <= r < h * w,
        w <= wp,
    ensures
        (Move::Pad { h, w, wp }).from((r / w as int) * wp + r % w as int) == Some(r),
{
    lemma_split(r, h as int, w as int);
    lemma_unflat(r / w as int, r % w as int, wp as int);
    lemma_fundamental_div_mod(r, w as int);
    let y = r / w as int;
    assert(y * w == w * y) by (nonlinear_arith);
}

/// Where one move finds what another put, the two together keep every row.
proof fn lemma_moved_back<T>(
    m: Arith<T>,
    src: Seq<T>,
    c: int,
    k: int,
    n: int,
    there: Move,
    back: Move,
)
    requires
        0 <= c,
        src.len() == k * c,
        forall|r: int|
            0 <= r < k ==> (#[trigger] back.from(r) matches Some(s) && 0 <= s < n && there.from(s)
                == Some(r)),
    ensures
        moved(m, moved(m, src, c, n, there), c, k, back) == src,
{
    let mid = moved(m, src, c, n, there);
    let end = moved(m, mid, c, k, back);
    assert forall|i: int| 0 <= i < src.len() implies end[i] == src[i] by {
        lemma_split(i, k, c);
        let r = i / c;
        let s = back.from(r)->0;
        lemma_flat(s, n, i % c, c);
        lemma_unflat(s, i % c, c);
    }
    assert(end =~= src);
}

/// Splitting the features of an image into windows and merging them gives the image.
pub proof fn lemma_windows_round_trip<T>(m: Arith<T>, src: Seq<T>, c: int, rows: int, wp: usize)
    requires
        0 <= c,
        0 <= rows,
        0 < wp,
        wp % 12 == 0,
        src.len() == (12 * rows * wp) * c,
    ensures
        moved(
            m,
            moved(m, src, c, (rows * (wp as int / 12)) * 144, Move::Split { wp }),
            c,
            12 * rows * wp,
            Move::Merge { wp },
        ) == src,
{
    let there = Move::Split { wp };
    let back = Move::Merge { wp };
    let n = (rows * (wp as int / 12)) * 144;
    assert forall|r: int| 0 <= r < 12 * rows * wp implies (#[trigger] back.from(r) matches Some(s)
        && 0 <= s < n && there.from(s) == Some(r)) by {
        lemma_merge_undoes_split(r, rows, wp);
        lemma_merge_within(r, rows, wp as int);
    }
    lemma_moved_back(m, src, c, 12 * rows * wp, n, there, back);
}

/// Turning the features of an image round and back gives the image.
pub proof fn lemma_roll_round_trip<T>(
    m: Arith<T>,
    src: Seq<T>,
    c: int,
    hp: usize,
    wp: usize,
    by: usize,
)
    requires
        0 <= c,
        by <= hp,
        by <= wp,
        src.len() == (hp * wp) * c,
    ensures
        moved(
            m,
            moved(m, src, c, hp * wp, Move::Roll { hp, wp, by }),
            c,
            hp * wp,
            Move::Unroll { hp, wp, by },
        ) == src,
{
    let there = Move::Roll { hp, wp, by };
    let back = Move::Unroll { hp, wp, by };
    assert forall|r: int| 0 <= r < hp * wp implies (#[trigger] back.from(r) matches Some(s) && 0
        <= s < hp * wp && there.from(s) == Some(r)) by {
        lemma_unroll_undoes_roll(r, hp, wp, by);
        lemma_split(r, hp as int, wp as int);
        let y = (r / wp as int + hp - by) % hp as int;
        let x = (r % wp as int + wp - by) % wp as int;
        lemma_flat(y, hp as int, x, wp as int);
    }
    lemma_moved_back(m, src, c, hp * wp, hp * wp, there, back);
}

} // verus!
