//! Attention within the windows of an image.

use crate::index::{lemma_flat, lemma_split, lemma_unflat};
use crate::linear::{dot, Linear};
use crate::loading::{clear, fails_with, group_steps, reads, Step};
use crate::parallel::par_map;
use crate::pointwise::{sum, sum_of};
use crate::scalar::{computes, Arith, Scalar, ONE};
use crate::weights::{data, Checkpoint, Weights, WeightsError};
use crate::windows::WINDOW_AREA;
use crate::words::joined;
use vstd::prelude::*;

verus! {

broadcast use group_steps;

/// Bit pattern of negative infinity.
pub const MINUS_INFINITY: u32 = 0xff80_0000;

/// Bit pattern of -1/2.
pub const MINUS_HALF: u32 = 0xbf00_0000;

// ---- softmax --------------------------------------------------------------------------

/// The largest of the first `n` elements.
pub open spec fn peak_of<T>(m: Arith<T>, row: Seq<T>, n: int) -> T
    decreases n,
{
    if n <= 0 {
        (m.bits)(MINUS_INFINITY)
    } else {
        (m.larger)(peak_of(m, row, n - 1), row[n - 1])
    }
}

/// The exponentials of the elements, each less the largest.
pub open spec fn weights_of<T>(m: Arith<T>, row: Seq<T>) -> Seq<T> {
    Seq::new(
        row.len(),
        |j: int| (m.exponential)((m.minus)(row[j], peak_of(m, row, row.len() as int))),
    )
}

/// The exponentials of the elements, scaled to add up to 1.
pub open spec fn softmax_spec<T>(m: Arith<T>, row: Seq<T>) -> Seq<T> {
    let e = weights_of(m, row);
    Seq::new(
        row.len(),
        |j: int| (m.times)(e[j], (m.over)(m.one(), sum_of(m, e, row.len() as int))),
    )
}

/// Softmax of a row.
pub fn softmax<T: Scalar>(row: &Vec<T>) -> (r: Vec<T>)
    ensures
        r@.len() == row@.len(),
        forall|m: Arith<T>| #[trigger] computes(m) ==> r@ == softmax_spec(m, row@),
{
    let n = row.len();
    let mut peak = T::from_bits(MINUS_INFINITY);
    let mut i: usize = 0;
    while i < n
        invariant
            i <= n,
            n == row@.len(),
            forall|m: Arith<T>| #[trigger] computes(m) ==> peak == peak_of(m, row@, i as int),
        decreases n - i,
    {
        peak = peak.larger(row[i]);
        i += 1;
    }
    let mut e: Vec<T> = Vec::with_capacity(n);
    i = 0;
    while i < n
        invariant
            i <= n,
            n == row@.len(),
            e@.len() == i,
            forall|m: Arith<T>| #[trigger] computes(m) ==> peak == peak_of(m, row@, n as int),
            forall|m: Arith<T>| #[trigger]
                computes(m) ==> forall|j: int|
                    0 <= j < i ==> #[trigger] e@[j] == weights_of(m, row@)[j],
        decreases n - i,
    {
        e.push(row[i].minus(peak).exponential());
        i += 1;
    }
    assert forall|m: Arith<T>| #[trigger] computes(m) implies e@ == weights_of(m, row@) by {
        assert(e@ =~= weights_of(m, row@));
    }
    let inv = T::from_bits(ONE).over(sum(&e));
    let mut r: Vec<T> = Vec::with_capacity(n);
    i = 0;
    while i < n
        invariant
            i <= n,
            n == row@.len(),
            e@.len() == n,
            r@.len() == i,
            forall|m: Arith<T>| #[trigger]
                computes(m) ==> e@ == weights_of(m, row@) && inv == (m.over)(
                    m.one(),
                    sum_of(m, weights_of(m, row@), n as int),
                ),
            forall|m: Arith<T>| #[trigger]
                computes(m) ==> forall|j: int|
                    0 <= j < i ==> #[trigger] r@[j] == softmax_spec(m, row@)[j],
        decreases n - i,
    {
        r.push(e[i].times(inv));
        i += 1;
    }
    assert forall|m: Arith<T>| #[trigger] computes(m) implies r@ == softmax_spec(m, row@) by {
        assert(r@ =~= softmax_spec(m, row@));
    }
    r
}

// ---- one head on one window -----------------------------------------------------------

/// Head `h` on window `b`: what its attention is computed from.
#[verifier::reject_recursive_types(T)]
pub struct Head<T> {
    /// Queries, keys and values of all positions, one row of `3 * dim` for each.
    pub qkv: Seq<T>,
    pub dim: int,
    pub heads: int,
    pub scale: T,
    /// Biases by relative position, one for each head.
    pub table: Seq<T>,
    /// The relative position of each pair of positions.
    pub index: Seq<usize>,
    pub mask: Option<Seq<T>>,
    pub n_win: int,
    pub b: int,
    pub h: int,
}

impl<T> Head<T> {
    /// Number of features of one head.
    pub open spec fn width(self) -> int {
        self.dim / self.heads
    }

    /// Where part `part` (0 for the query, 1 for the key, 2 for the value) of position `i`
    /// of the window begins.
    pub open spec fn at(self, part: int, i: int) -> int {
        (self.b * 144 + i) * (3 * self.dim) + (part * self.dim + self.h * self.width())
    }

    /// How much position `i` attends to position `j`, before softmax.
    pub open spec fn score(self, m: Arith<T>, i: int, j: int) -> T {
        let raw = (m.times)(
            dot(m, self.qkv, self.at(0, i), self.qkv, self.at(1, j), self.width()),
            self.scale,
        );
        let biased = (m.plus)(
            raw,
            self.table[self.index[i * 144 + j] * self.heads + self.h],
        );
        match self.mask {
            Some(mask) => (m.plus)(biased, mask[(self.b % self.n_win) * 20736 + (i * 144 + j)]),
            None => biased,
        }
    }

    /// How much position `i` attends to each position, before softmax.
    pub open spec fn scores(self, m: Arith<T>, i: int) -> Seq<T> {
        Seq::new(144, |j: int| self.score(m, i, j))
    }

    /// Feature `d` of the first `n` values, weighted by how much position `i` attends to
    /// each, added up.
    pub open spec fn mix(self, m: Arith<T>, i: int, d: int, n: int) -> T
        decreases n,
    {
        if n <= 0 {
            m.zero()
        } else {
            (m.plus)(
                self.mix(m, i, d, n - 1),
                (m.times)(
                    softmax_spec(m, self.scores(m, i))[n - 1],
                    self.qkv[self.at(2, n - 1) + d],
                ),
            )
        }
    }

    /// The lengths on which the head is defined.
    pub open spec fn fits(self) -> bool {
        &&& 0 < self.dim
        &&& 0 < self.heads
        &&& 0 <= self.b
        &&& 0 <= self.h < self.heads
        &&& (((self.b + 1) * 144 - 1) * 3 + 2) * self.dim + self.heads * self.width()
            <= self.qkv.len() <= usize::MAX
        &&& 20736 <= self.index.len()
        &&& forall|i: int|
            0 <= i < 20736 ==> (#[trigger] self.index[i] + 1) * self.heads <= self.table.len()
        &&& self.table.len() <= usize::MAX
        &&& self.mask matches Some(mask) ==> 0 < self.n_win && (self.b % self.n_win + 1) * 20736
            <= mask.len() <= usize::MAX
    }

    proof fn lemma_at(self, part: int, i: int, d: int)
        requires
            self.fits(),
            0 <= part <= 2,
            0 <= i < 144,
            0 <= d < self.width(),
        ensures
            0 <= self.at(part, i),
            self.at(part, i) + d < self.qkv.len(),
            0 <= self.b * 144 + i,
            0 <= (self.b * 144 + i) * (3 * self.dim),
            0 <= self.h * self.width(),
    {
        let (b, dim, hd) = (self.b, self.dim, self.width());
        assert(0 <= self.h * hd && self.h * hd + d < self.heads * hd) by (nonlinear_arith)
            requires
                0 <= self.h < self.heads,
                0 <= d < hd,
        ;
        let t = b * 144 + i;
        let last = (b + 1) * 144 - 1;
        assert(0 <= t * (3 * dim) && t * (3 * dim) + part * dim <= (last * 3 + 2) * dim && 0 <= part
            * dim) by (nonlinear_arith)
            requires
                0 <= t <= last,
                0 < dim,
                0 <= part <= 2,
        ;
    }
}

/// The parts of attention that all heads share.
struct Shared<'a, T> {
    qkv: &'a Vec<T>,
    dim: usize,
    heads: usize,
    scale: T,
    table: &'a Vec<T>,
    index: &'a Vec<usize>,
    mask: Option<&'a [T]>,
    n_win: usize,
}

impl<'a, T: Scalar> Shared<'a, T> {
    spec fn head(&self, b: int, h: int) -> Head<T> {
        Head {
            qkv: self.qkv@,
            dim: self.dim as int,
            heads: self.heads as int,
            scale: self.scale,
            table: self.table@,
            index: self.index@,
            mask: crate::tensor::opt(self.mask),
            n_win: self.n_win as int,
            b,
            h,
        }
    }

    fn part_at(&self, b: usize, h: usize, part: usize, i: usize) -> (r: usize)
        requires
            self.head(b as int, h as int).fits(),
            part <= 2,
            i < 144,
            0 < self.head(b as int, h as int).width(),
        ensures
            r == self.head(b as int, h as int).at(part as int, i as int),
            r + self.head(b as int, h as int).width() <= self.qkv@.len(),
    {
        let ghost g = self.head(b as int, h as int);
        proof {
            g.lemma_at(part as int, i as int, 0);
            g.lemma_at(part as int, i as int, g.width() - 1);
            assert(self.qkv@.len() == self.qkv.len());
            let t = b * 144 + i;
            assert(t <= t * (3 * self.dim) && 3 * self.dim <= (((b + 1) * 144 - 1) * 3 + 2)
                * self.dim) by (nonlinear_arith)
                requires
                    0 <= t,
                    0 <= b,
                    0 < self.dim,
            ;
            assert(0 <= g.heads * g.width()) by (nonlinear_arith)
                requires
                    0 < g.heads,
                    0 < g.width(),
            ;
            assert(b * 144 <= t);
        }
        let hd = self.dim / self.heads;
        assert(0 <= part * self.dim && part * self.dim <= 2 * self.dim) by (nonlinear_arith)
            requires
                0 <= part <= 2,
                0 < self.dim,
        ;
        (b * WINDOW_AREA + i) * (3 * self.dim) + (part * self.dim + h * hd)
    }

    fn score(&self, b: usize, h: usize, i: usize, j: usize) -> (r: T)
        requires
            self.head(b as int, h as int).fits(),
            i < 144,
            j < 144,
        ensures
            forall|m: Arith<T>| #[trigger]
                computes(m) ==> r == self.head(b as int, h as int).score(m, i as int, j as int),
    {
        let ghost g = self.head(b as int, h as int);
        let hd = self.dim / self.heads;
        let mut acc = T::from_bits(0);
        if hd > 0 {
            let q = self.part_at(b, h, 0, i);
            let k = self.part_at(b, h, 1, j);
            let mut d: usize = 0;
            while d < hd
                invariant
                    d <= hd,
                    q + hd <= self.qkv.len(),
                    k + hd <= self.qkv.len(),
                    forall|m: Arith<T>| #[trigger]
                        computes(m) ==> acc == dot(
                            m,
                            self.qkv@,
                            q as int,
                            self.qkv@,
                            k as int,
                            d as int,
                        ),
                decreases hd - d,
            {
                acc = acc.plus(self.qkv[q + d].times(self.qkv[k + d]));
                d += 1;
            }
        }
        acc = acc.times(self.scale);
        let pair = i * WINDOW_AREA + j;
        proof {
            let x = self.index@[pair as int] as int;
            assert((self.index@[pair as int] + 1) * self.heads <= self.table@.len());
            assert(x * self.heads + self.heads == (x + 1) * self.heads && 0 <= x * self.heads)
                by (nonlinear_arith)
                requires
                    0 <= x,
            ;
            assert(self.table@.len() == self.table.len());
        }
        acc = acc.plus(self.table[self.index[pair] * self.heads + h]);
        match self.mask {
            None => acc,
            Some(mask) => {
                let w = b % self.n_win;
                assert(mask@.len() == mask.len());
                acc.plus(mask[w * 20736 + pair])
            },
        }
    }

    /// What the head makes of the window: `hd` features for each position.
    fn attend(&self, b: usize, h: usize) -> (r: Vec<T>)
        requires
            self.head(b as int, h as int).fits(),
        ensures
            is_head_out(r@, self.head(b as int, h as int)),
    {
        let ghost g = self.head(b as int, h as int);
        let hd = self.dim / self.heads;
        let mut out: Vec<T> = Vec::new();
        let mut i: usize = 0;
        while i < WINDOW_AREA
            invariant
                i <= 144,
                hd == g.width(),
                g == self.head(b as int, h as int),
                g.fits(),
                out@.len() == i * hd,
                forall|m: Arith<T>| #[trigger]
                    computes(m) ==> forall|k: int|
                        0 <= k < i * hd ==> #[trigger] out@[k] == g.mix(
                            m,
                            k / hd as int,
                            k % hd as int,
                            144,
                        ),
            decreases 144 - i,
        {
            let mut scores: Vec<T> = Vec::with_capacity(WINDOW_AREA);
            let mut j: usize = 0;
            while j < WINDOW_AREA
                invariant
                    j <= 144,
                    i < 144,
                    g == self.head(b as int, h as int),
                    g.fits(),
                    scores@.len() == j,
                    forall|m: Arith<T>| #[trigger]
                        computes(m) ==> forall|k: int|
                            0 <= k < j ==> #[trigger] scores@[k] == g.score(m, i as int, k),
                decreases 144 - j,
            {
                scores.push(self.score(b, h, i, j));
                j += 1;
            }
            assert forall|m: Arith<T>| #[trigger] computes(m) implies scores@ == g.scores(
                m,
                i as int,
            ) by {
                assert(scores@ =~= g.scores(m, i as int));
            }
            let shares = softmax(&scores);
            let ghost start = out@.len();
            let mut d: usize = 0;
            proof {
                assert((i + 1) * hd == i * hd + hd) by (nonlinear_arith);
            }
            while d < hd
                invariant
                    d <= hd,
                    i < 144,
                    hd == g.width(),
                    start == i * hd,
                    g == self.head(b as int, h as int),
                    g.fits(),
                    shares@.len() == 144,
                    forall|m: Arith<T>| #[trigger]
                        computes(m) ==> shares@ == softmax_spec(m, g.scores(m, i as int)),
                    out@.len() == start + d,
                    forall|m: Arith<T>| #[trigger]
                        computes(m) ==> forall|k: int|
                            0 <= k < start + d ==> #[trigger] out@[k] == g.mix(
                                m,
                                k / hd as int,
                                k % hd as int,
                                144,
                            ),
                decreases hd - d,
            {
                let mut acc = T::from_bits(0);
                let mut j: usize = 0;
                while j < WINDOW_AREA
                    invariant
                        j <= 144,
                        d < hd,
                        hd == g.width(),
                        g == self.head(b as int, h as int),
                        g.fits(),
                        shares@.len() == 144,
                        forall|m: Arith<T>| #[trigger]
                            computes(m) ==> shares@ == softmax_spec(m, g.scores(m, i as int)),
                        forall|m: Arith<T>| #[trigger]
                            computes(m) ==> acc == g.mix(m, i as int, d as int, j as int),
                    decreases 144 - j,
                {
                    let v = self.part_at(b, h, 2, j);
                    assert(self.qkv@.len() == self.qkv.len());
                    acc = acc.plus(shares[j].times(self.qkv[v + d]));
                    j += 1;
                }
                proof {
                    lemma_unflat(i as int, d as int, hd as int);
                }
                out.push(acc);
                d += 1;
            }
            i += 1;
        }
        out
    }
}

/// `v` is what a head makes of a window.
spec fn is_head_out<T: Scalar>(v: Seq<T>, g: Head<T>) -> bool {
    &&& v.len() == 144 * g.width()
    &&& forall|m: Arith<T>| #[trigger]
        computes(m) ==> forall|k: int|
            0 <= k < v.len() ==> #[trigger] v[k] == g.mix(m, k / g.width(), k % g.width(), 144)
}

// ---- all heads on all windows ---------------------------------------------------------

/// The numbers as indices.
pub open spec fn indices_of<T>(m: Arith<T>, s: Seq<T>) -> Seq<usize> {
    Seq::new(s.len(), |i: int| (m.to_usize)(s[i]))
}

fn indices<T: Scalar>(s: &Vec<T>) -> (r: Vec<usize>)
    ensures
        forall|m: Arith<T>| #[trigger] computes(m) ==> r@ == indices_of(m, s@),
{
    let mut r: Vec<usize> = Vec::with_capacity(s.len());
    let mut i: usize = 0;
    while i < s.len()
        invariant
            i <= s@.len(),
            r@.len() == i,
            forall|m: Arith<T>| #[trigger]
                computes(m) ==> forall|j: int|
                    0 <= j < i ==> #[trigger] r@[j] == (m.to_usize)(s@[j]),
        decreases s@.len() - i,
    {
        r.push(s[i].to_usize());
        i += 1;
    }
    assert forall|m: Arith<T>| #[trigger] computes(m) implies r@ == indices_of(m, s@) by {
        assert(r@ =~= indices_of(m, s@));
    }
    r
}

/// Attention within windows of 12 by 12 positions.
#[derive(Debug)]
pub struct WindowAttention<T> {
    pub qkv: Linear<T>,
    pub proj: Linear<T>,
    pub bias_table: Vec<T>,
    pub index: Vec<usize>,
    pub heads: usize,
    pub dim: usize,
    pub scale: T,
}

impl<T: Scalar> WindowAttention<T> {
    /// The steps by which attention is loaded.
    #[verifier::opaque]
    pub open spec fn steps(prefix: Seq<char>) -> Seq<Step> {
        reads(prefix + ".relative_position_bias_table"@) + reads(
            prefix + ".relative_position_index"@,
        ) + Linear::<T>::steps(prefix + ".qkv.weight"@) + Linear::<T>::steps(
            prefix + ".proj.weight"@,
        )
    }

    /// Attention is the one that the weights hold under this prefix.
    pub open spec fn loaded(
        self,
        w: Checkpoint,
        prefix: Seq<char>,
        dim: int,
        heads: int,
    ) -> bool {
        &&& self.qkv.loaded(w, prefix + ".qkv.weight"@)
        &&& self.proj.loaded(w, prefix + ".proj.weight"@)
        &&& self.dim == dim
        &&& self.heads == heads
        &&& forall|m: Arith<T>| #[trigger]
            computes(m) ==> {
                &&& self.bias_table@ == data(m, w, prefix + ".relative_position_bias_table"@)
                &&& self.index@ == indices_of(m, data(m, w, prefix + ".relative_position_index"@))
                &&& self.scale == (m.power)(
                    (m.of_usize)((dim / heads) as usize),
                    (m.bits)(MINUS_HALF),
                )
            }
    }

    /// Loads attention over `dim` features and `heads` heads.
    pub fn load(wts: &Weights, prefix: &str, dim: usize, heads: usize) -> (r: Result<
        WindowAttention<T>,
        WeightsError,
    >)
        requires
            wts.wf(),
            0 < heads,
        ensures
            match r {
                Ok(a) => clear(wts@, Self::steps(prefix@)) && a.loaded(
                    wts@,
                    prefix@,
                    dim as int,
                    heads as int,
                ),
                Err(e) => fails_with(wts@, Self::steps(prefix@), e@),
            },
    {
        reveal(WindowAttention::steps);
        let bias_table: Vec<T> = match wts.get(
            joined(prefix, ".relative_position_bias_table").as_str(),
        ) {
            Err(e) => {
                return Err(e);
            },
            Ok(v) => v,
        };
        let idx: Vec<T> = match wts.get(joined(prefix, ".relative_position_index").as_str()) {
            Err(e) => {
                return Err(e);
            },
            Ok(v) => v,
        };
        let qkv: Linear<T> = match Linear::load(wts, joined(prefix, ".qkv.weight").as_str()) {
            Err(e) => {
                return Err(e);
            },
            Ok(l) => l,
        };
        let proj: Linear<T> = match Linear::load(wts, joined(prefix, ".proj.weight").as_str()) {
            Err(e) => {
                return Err(e);
            },
            Ok(l) => l,
        };
        let index = indices(&idx);
        let scale = T::from_usize(dim / heads).power(T::from_bits(MINUS_HALF));
        Ok(WindowAttention { qkv, proj, bias_table, index, heads, dim, scale })
    }

    /// Head `h` on window `b`.
    pub open spec fn head(
        self,
        m: Arith<T>,
        x: Seq<T>,
        n_win: int,
        mask: Option<Seq<T>>,
        b: int,
        h: int,
    ) -> Head<T> {
        Head {
            qkv: self.qkv.out(m, x),
            dim: self.dim as int,
            heads: self.heads as int,
            scale: self.scale,
            table: self.bias_table@,
            index: self.index@,
            mask,
            n_win,
            b,
            h,
        }
    }

    /// What all heads together make of all complete windows, before the projection.
    pub open spec fn heads_out(
        self,
        m: Arith<T>,
        x: Seq<T>,
        n_win: int,
        mask: Option<Seq<T>>,
    ) -> Seq<T> {
        let hd = self.dim as int / self.heads as int;
        Seq::new(
            x.len(),
            |i: int|
                {
                    let at = i / self.dim as int;
                    let f = i % self.dim as int;
                    if at / 144 < x.len() as int / (144 * self.dim) && f < self.heads * hd {
                        self.head(m, x, n_win, mask, at / 144, f / hd).mix(
                            m,
                            at % 144,
                            f % hd,
                            144,
                        )
                    } else {
                        m.zero()
                    }
                },
        )
    }

    /// Attention on windows of features.
    pub open spec fn out(
        self,
        m: Arith<T>,
        x: Seq<T>,
        n_win: int,
        mask: Option<Seq<T>>,
    ) -> Seq<T> {
        self.proj.out(m, self.heads_out(m, x, n_win, mask))
    }

    /// Attention is defined on `n` elements.
    pub open spec fn fits(self, n: int, n_win: int, mask_len: Option<int>) -> bool {
        let windows = n / (144 * self.dim);
        &&& 0 < self.dim
        &&& 0 < self.heads
        &&& 144 * self.dim <= usize::MAX
        &&& windows * self.heads <= usize::MAX
        &&& self.qkv.fits(n)
        &&& 0 < windows ==> {
            &&& ((windows * 144 - 1) * 3 + 2) * self.dim + self.heads * (self.dim as int
                / self.heads as int) <= self.qkv.out_len(n)
            &&& 20736 <= self.index@.len()
            &&& forall|i: int|
                0 <= i < 20736 ==> (#[trigger] self.index@[i] + 1) * self.heads
                    <= self.bias_table@.len()
            &&& mask_len matches Some(len) ==> 0 < n_win && (if windows < n_win {
                windows
            } else {
                n_win
            }) * 20736 <= len
        }
        &&& self.proj.fits(n)
    }

    /// Number of elements that attention makes of `n`.
    pub open spec fn out_len(self, n: int) -> int {
        self.proj.out_len(n)
    }

    /// Puts together what the heads made of the windows.
    fn join_heads(&self, n: usize, windows: usize, per_head: &Vec<Vec<T>>) -> (r: Vec<T>)
        requires
            0 < self.dim,
            0 < self.heads,
            144 * self.dim <= usize::MAX,
            windows == n as int / (144 * self.dim),
            per_head@.len() == windows * self.heads,
            forall|k: int|
                0 <= k < per_head@.len() ==> (#[trigger] per_head@[k])@.len() == 144 * (
                self.dim as int / self.heads as int),
        ensures
            r@.len() == n,
            forall|m: Arith<T>| #[trigger]
                computes(m) ==> forall|i: int|
                    0 <= i < n ==> #[trigger] r@[i] == self.joined_at(
                        m,
                        windows as int,
                        per_head@,
                        i,
                    ),
    {
        let hd = self.dim / self.heads;
        let zero = T::from_bits(0);
        let mut r: Vec<T> = Vec::with_capacity(n);
        let mut i: usize = 0;
        proof {
            vstd::arithmetic::div_mod::lemma_fundamental_div_mod(
                self.dim as int,
                self.heads as int,
            );
        }
        while i < n
            invariant
                i <= n,
                0 < self.dim,
                0 < self.heads,
                144 * self.dim <= usize::MAX,
                hd == self.dim as int / self.heads as int,
                self.heads * hd <= self.dim,
                per_head@.len() == windows * self.heads == per_head.len(),
                forall|k: int|
                    0 <= k < per_head@.len() ==> (#[trigger] per_head@[k])@.len() == 144 * hd,
                forall|m: Arith<T>| #[trigger] computes(m) ==> zero == m.zero(),
                r@.len() == i,
                forall|m: Arith<T>| #[trigger]
                    computes(m) ==> forall|k: int|
                        0 <= k < i ==> #[trigger] r@[k] == self.joined_at(
                            m,
                            windows as int,
                            per_head@,
                            k,
                        ),
            decreases n - i,
        {
            let at = i / self.dim;
            let f = i % self.dim;
            if at / WINDOW_AREA < windows && f < self.heads * hd {
                proof {
                    lemma_split(f as int, self.heads as int, hd as int);
                    lemma_flat(
                        at as int / 144,
                        windows as int,
                        f as int / hd as int,
                        self.heads as int,
                    );
                    lemma_flat(at as int % 144, 144, f as int % hd as int, hd as int);
                }
                let k = (at / WINDOW_AREA) * self.heads + f / hd;
                let part = &per_head[k];
                assert(part@.len() == part.len());
                r.push(part[(at % WINDOW_AREA) * hd + f % hd]);
            } else {
                r.push(zero);
            }
            i += 1;
        }
        r
    }

    /// Element `i` of what the heads made of the windows, put together.
    spec fn joined_at(self, m: Arith<T>, windows: int, per_head: Seq<Vec<T>>, i: int) -> T {
        let hd = self.dim as int / self.heads as int;
        let at = i / self.dim as int;
        let f = i % self.dim as int;
        if at / 144 < windows && f < self.heads * hd {
            per_head[(at / 144) * self.heads + f / hd]@[(at % 144) * hd + f % hd]
        } else {
            m.zero()
        }
    }

    /// Applies attention to windows of features: `n_win` windows for each image, with an
    /// optional mask for each of them.
    pub fn apply(&self, x: &Vec<T>, n_win: usize, mask: Option<&[T]>) -> (r: Vec<T>)
        requires
            self.fits(x@.len() as int, n_win as int, crate::tensor::opt_len(mask)),
        ensures
            r@.len() == self.out_len(x@.len() as int),
            forall|m: Arith<T>| #[trigger]
                computes(m) ==> r@ == self.out(m, x@, n_win as int, crate::tensor::opt(mask)),
    {
        let windows = x.len() / (WINDOW_AREA * self.dim);
        let qkv = self.qkv.apply(x);
        let shared = Shared {
            qkv: &qkv,
            dim: self.dim,
            heads: self.heads,
            scale: self.scale,
            table: &self.bias_table,
            index: &self.index,
            mask,
            n_win,
        };
        let heads = self.heads;
        let count = windows * heads;
        assert forall|k: int| 0 <= k < count implies shared.head(
            #[trigger] (k / heads as int),
            k % heads as int,
        ).fits() by {
            lemma_split(k, windows as int, heads as int);
            let b = k / heads as int;
            let last = (b + 1) * 144 - 1;
            assert((last * 3 + 2) * self.dim <= ((windows * 144 - 1) * 3 + 2) * self.dim)
                by (nonlinear_arith)
                requires
                    last <= windows * 144 - 1,
            ;
            if let Some(mk) = mask {
                if windows < n_win {
                    vstd::arithmetic::div_mod::lemma_small_mod(b as nat, n_win as nat);
                }
                assert(mk@.len() == mk.len());
            }
            assert(self.bias_table@.len() == self.bias_table.len());
            assert(qkv@.len() == qkv.len());
        }
        let one = |k: usize| -> (v: Vec<T>)
            requires
                k < count,
            ensures
                is_head_out(v@, shared.head(k as int / heads as int, k as int % heads as int)),
            {
                assert(shared.head(k as int / heads as int, k as int % heads as int).fits());
                shared.attend(k / heads, k % heads)
            };
        let per_head = par_map(count, one);
        assert forall|k: int| 0 <= k < per_head@.len() implies (#[trigger] per_head@[k])@.len()
            == 144 * (self.dim as int / heads as int) by {
            assert(is_head_out(
                per_head@[k as usize as int]@,
                shared.head(k / heads as int, k % heads as int),
            ));
        }
        let out = self.join_heads(x.len(), windows, &per_head);
        assert forall|m: Arith<T>| #[trigger] computes(m) implies out@ == self.heads_out(
            m,
            x@,
            n_win as int,
            crate::tensor::opt(mask),
        ) by {
            let want = self.heads_out(m, x@, n_win as int, crate::tensor::opt(mask));
            let hd = self.dim as int / heads as int;
            assert forall|i: int| 0 <= i < out@.len() implies out@[i] == want[i] by {
                let at = i / self.dim as int;
                let f = i % self.dim as int;
                assert(out@[i] == self.joined_at(m, windows as int, per_head@, i));
                vstd::arithmetic::div_mod::lemma_fundamental_div_mod(i, self.dim as int);
                assert(0 <= at) by (nonlinear_arith)
                    requires
                        i == self.dim * at + f,
                        0 <= i,
                        f < self.dim,
                        0 < self.dim,
                ;
                if at / 144 < windows && f < heads * hd {
                    lemma_split(f, heads as int, hd);
                    lemma_flat(at / 144, windows as int, f / hd, heads as int);
                    lemma_unflat(at / 144, f / hd, heads as int);
                    lemma_flat(at % 144, 144, f % hd, hd);
                    lemma_unflat(at % 144, f % hd, hd);
                    let k = (at / 144) * heads + f / hd;
                    let kk = k as usize;
                    let g = shared.head(kk as int / heads as int, kk as int % heads as int);
                    assert(is_head_out(per_head@[kk as int]@, g));
                    assert(g == self.head(
                        m,
                        x@,
                        n_win as int,
                        crate::tensor::opt(mask),
                        at / 144,
                        f / hd,
                    ));
                }
            }
            assert(out@ =~= want);
        }
        self.proj.apply(&out)
    }
}

// ---- laws -----------------------------------------------------------------------------

proof fn lemma_dot_same<T>(
    m: Arith<T>,
    w: Seq<T>,
    v: Seq<T>,
    i: int,
    x: Seq<T>,
    y: Seq<T>,
    j: int,
    n: int,
)
    requires
        forall|k: int| i <= k < i + n ==> #[trigger] w[k] == v[k],
        forall|k: int| j <= k < j + n ==> #[trigger] x[k] == y[k],
    ensures
        dot(m, w, i, x, j, n) == dot(m, v, i, y, j, n),
    decreases n,
{
    if n > 0 {
        lemma_dot_same(m, w, v, i, x, y, j, n - 1);
    }
}

/// The rows from `from` to `to` of a linear map depend on these rows alone.
proof fn lemma_rows_apart<T: Scalar>(
    l: Linear<T>,
    m: Arith<T>,
    x: Seq<T>,
    y: Seq<T>,
    rows: int,
    from: int,
    to: int,
)
    requires
        0 < l.ic,
        0 < l.oc,
        x.len() == rows * l.ic,
        y.len() == rows * l.ic,
        0 <= from <= to <= rows,
        forall|k: int| from * l.ic <= k < to * l.ic ==> #[trigger] x[k] == y[k],
    ensures
        l.out(m, x).len() == rows * l.oc,
        l.out(m, y).len() == rows * l.oc,
        forall|k: int|
            from * l.oc <= k < to * l.oc ==> #[trigger] l.out(m, x)[k] == l.out(m, y)[k],
{
    let (ic, oc) = (l.ic as int, l.oc as int);
    assert(0 <= rows * oc) by (nonlinear_arith)
        requires
            0 <= rows,
            0 < oc,
    ;
    lemma_unflat(rows, 0, ic);
    let (a, b) = (l.out(m, x), l.out(m, y));
    assert forall|k: int| from * oc <= k < to * oc implies #[trigger] a[k] == b[k] by {
        assert(0 <= from * oc && to * oc <= rows * oc) by (nonlinear_arith)
            requires
                0 <= from <= to <= rows,
                0 < oc,
        ;
        lemma_split(k, rows, oc);
        let r = k / oc;
        assert(from <= r < to) by (nonlinear_arith)
            requires
                from * oc <= k < to * oc,
                r * oc + k % oc == k,
                0 <= k % oc < oc,
        ;
        assert(from * ic <= r * ic && r * ic + ic <= to * ic) by (nonlinear_arith)
            requires
                from <= r < to,
                0 < ic,
        ;
        lemma_dot_same(m, l.w@, l.w@, (k % oc) * ic, x, y, r * ic, ic);
    }
}

/// Two heads that differ in nothing but the queries, keys and values of other windows.
spec fn alike<T>(g: Head<T>, f: Head<T>) -> bool {
    &&& f == (Head { qkv: f.qkv, ..g })
    &&& 0 < g.dim
    &&& 0 < g.heads
    &&& 0 <= g.h < g.heads
    &&& 0 <= g.b
    &&& forall|k: int|
        (g.b * 144) * (3 * g.dim) <= k < (g.b * 144 + 144) * (3 * g.dim) ==> #[trigger] g.qkv[k]
            == f.qkv[k]
}

proof fn lemma_at_within<T>(g: Head<T>, part: int, i: int)
    requires
        0 < g.dim,
        0 < g.heads,
        0 <= g.h < g.heads,
        0 <= part <= 2,
        0 <= i < 144,
    ensures
        (g.b * 144) * (3 * g.dim) <= g.at(part, i),
        g.at(part, i) + g.width() <= (g.b * 144 + 144) * (3 * g.dim),
        0 <= g.width(),
{
    let (dim, hd, t) = (g.dim, g.width(), g.b * 144);
    vstd::arithmetic::div_mod::lemma_fundamental_div_mod(dim, g.heads);
    assert(0 <= hd) by (nonlinear_arith)
        requires
            dim == g.heads * hd + dim % g.heads,
            0 <= dim % g.heads < g.heads,
            0 < dim,
    ;
    assert(0 <= g.h * hd && g.h * hd + hd <= g.heads * hd) by (nonlinear_arith)
        requires
            0 <= g.h < g.heads,
            0 <= hd,
    ;
    assert(t * (3 * dim) <= (t + i) * (3 * dim) && (t + i) * (3 * dim) + 3 * dim <= (t + 144) * (3
        * dim)) by (nonlinear_arith)
        requires
            0 <= i < 144,
            0 < dim,
    ;
    assert(0 <= part * dim <= 2 * dim) by (nonlinear_arith)
        requires
            0 <= part <= 2,
            0 < dim,
    ;
}

proof fn lemma_scores_alike<T>(m: Arith<T>, g: Head<T>, f: Head<T>, i: int)
    requires
        alike(g, f),
        0 <= i < 144,
    ensures
        g.scores(m, i) == f.scores(m, i),
{
    assert forall|j: int| 0 <= j < 144 implies g.score(m, i, j) == f.score(m, i, j) by {
        lemma_at_within(g, 0, i);
        lemma_at_within(g, 1, j);
        lemma_dot_same(m, g.qkv, f.qkv, g.at(0, i), g.qkv, f.qkv, g.at(1, j), g.width());
    }
    assert(g.scores(m, i) =~= f.scores(m, i));
}

proof fn lemma_mix_alike<T>(m: Arith<T>, g: Head<T>, f: Head<T>, i: int, d: int, n: int)
    requires
        alike(g, f),
        0 <= i < 144,
        0 <= d < g.width(),
        0 <= n <= 144,
    ensures
        g.mix(m, i, d, n) == f.mix(m, i, d, n),
    decreases n,
{
    if n > 0 {
        lemma_mix_alike(m, g, f, i, d, n - 1);
        lemma_scores_alike(m, g, f, i);
        lemma_at_within(g, 2, n - 1);
    }
}

impl<T: Scalar> WindowAttention<T> {
    proof fn lemma_heads_apart(
        self,
        m: Arith<T>,
        x: Seq<T>,
        y: Seq<T>,
        windows: int,
        b: int,
        n_win: int,
        mask: Option<Seq<T>>,
    )
        requires
            0 < self.dim,
            0 < self.heads,
            self.qkv.ic == self.dim,
            self.qkv.oc == 3 * self.dim,
            x.len() == (windows * 144) * self.dim,
            y.len() == (windows * 144) * self.dim,
            0 <= b < windows,
            forall|k: int|
                (b * 144) * self.dim <= k < (b * 144 + 144) * self.dim ==> #[trigger] x[k] == y[k],
        ensures
            forall|k: int|
                (b * 144) * self.dim <= k < (b * 144 + 144) * self.dim
                    ==> #[trigger] self.heads_out(m, x, n_win, mask)[k] == self.heads_out(
                    m,
                    y,
                    n_win,
                    mask,
                )[k],
    {
        let dim = self.dim as int;
        let hd = dim / self.heads as int;
        lemma_rows_apart(self.qkv, m, x, y, windows * 144, b * 144, b * 144 + 144);
        let (a, c) = (self.heads_out(m, x, n_win, mask), self.heads_out(m, y, n_win, mask));
        assert forall|k: int| (b * 144) * dim <= k < (b * 144 + 144) * dim implies #[trigger] a[k]
            == c[k] by {
            assert(0 <= (b * 144) * dim && (b * 144 + 144) * dim <= (windows * 144) * dim)
                by (nonlinear_arith)
                requires
                    0 <= b < windows,
                    0 < dim,
            ;
            lemma_split(k, windows * 144, dim);
            let at = k / dim;
            let f = k % dim;
            assert(b * 144 <= at < b * 144 + 144) by (nonlinear_arith)
                requires
                    (b * 144) * dim <= k < (b * 144 + 144) * dim,
                    at * dim + f == k,
                    0 <= f < dim,
            ;
            assert(at / 144 == b);
            if f < self.heads * hd {
                assert(0 <= hd) by {
                    vstd::arithmetic::div_mod::lemma_div_pos_is_pos(dim, self.heads as int);
                }
                lemma_split(f, self.heads as int, hd);
                let g = self.head(m, x, n_win, mask, b, f / hd);
                let h = self.head(m, y, n_win, mask, b, f / hd);
                assert(alike(g, h));
                lemma_mix_alike(m, g, h, at % 144, f % hd, 144);
            }
        }
    }

    /// Attention never crosses a window: what comes out for the tokens of window `b` depends on
    /// the tokens of window `b` alone, whatever the other windows hold.
    pub proof fn lemma_windows_apart(
        self,
        m: Arith<T>,
        x: Seq<T>,
        y: Seq<T>,
        windows: int,
        b: int,
        n_win: int,
        mask: Option<Seq<T>>,
    )
        requires
            0 < self.dim,
            0 < self.heads,
            self.qkv.ic == self.dim,
            self.qkv.oc == 3 * self.dim,
            self.proj.ic == self.dim,
            0 < self.proj.oc,
            x.len() == (windows * 144) * self.dim,
            y.len() == (windows * 144) * self.dim,
            0 <= b < windows,
            x.subrange((b * 144) * self.dim, (b * 144 + 144) * self.dim) == y.subrange(
                (b * 144) * self.dim,
                (b * 144 + 144) * self.dim,
            ),
        ensures
            self.out(m, x, n_win, mask).len() == (windows * 144) * self.proj.oc,
            self.out(m, y, n_win, mask).len() == (windows * 144) * self.proj.oc,
            self.out(m, x, n_win, mask).subrange(
                (b * 144) * self.proj.oc,
                (b * 144 + 144) * self.proj.oc,
            ) == self.out(m, y, n_win, mask).subrange(
                (b * 144) * self.proj.oc,
                (b * 144 + 144) * self.proj.oc,
            ),
    {
        let dim = self.dim as int;
        let oc = self.proj.oc as int;
        let (lo, hi) = ((b * 144) * dim, (b * 144 + 144) * dim);
        assert(0 <= lo <= hi && hi <= (windows * 144) * dim) by (nonlinear_arith)
            requires
                0 <= b < windows,
                0 < dim,
                lo == (b * 144) * dim,
                hi == (b * 144 + 144) * dim,
        ;
        assert forall|k: int| lo <= k < hi implies #[trigger] x[k] == y[k] by {
            assert(x.subrange(lo, hi)[k - lo] == y.subrange(lo, hi)[k - lo]);
        }
        self.lemma_heads_apart(m, x, y, windows, b, n_win, mask);
        let (p, q) = (self.heads_out(m, x, n_win, mask), self.heads_out(m, y, n_win, mask));
        lemma_rows_apart(self.proj, m, p, q, windows * 144, b * 144, b * 144 + 144);
        let (from, to) = ((b * 144) * oc, (b * 144 + 144) * oc);
        assert(0 <= from <= to && to <= (windows * 144) * oc) by (nonlinear_arith)
            requires
                0 <= b < windows,
                0 < oc,
                from == (b * 144) * oc,
                to == (b * 144 + 144) * oc,
        ;
        assert(self.out(m, x, n_win, mask).subrange(from, to) =~= self.out(
            m,
            y,
            n_win,
            mask,
        ).subrange(from, to));
    }
}

} // verus!
