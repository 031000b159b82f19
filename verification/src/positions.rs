//! Where the features of a position go in the backbone, and that they come back to it.

use crate::conv::biased;
use crate::index::{lemma_flat, lemma_unflat};
use crate::linear::{dot, held};
use crate::mask::mask_at;
use crate::scalar::{Arith, Scalar};
use crate::swin::{pad_up, window_count, SwinBlock, SwinStage};
use crate::windows::{
    half, lemma_merge_undoes_split, lemma_merge_within, lemma_turned_back, moved, Move,
};
use vstd::arithmetic::div_mod::lemma_fundamental_div_mod;
use vstd::prelude::*;

verus! {

/// Where position `(y, x)` of an image of `hp` by `wp` positions, turned round by `by`, stands
/// among the positions of its windows of 12 by 12.
pub open spec fn slot(hp: int, wp: int, by: int, y: int, x: int) -> int {
    let row = (y + hp - by) % hp;
    let col = (x + wp - by) % wp;
    ((row / 12) * (wp / 12) + col / 12) * 144 + ((row % 12) * 12 + col % 12)
}

/// The rows of features that a move takes, one by one.
proof fn lemma_moved_row<T>(m: Arith<T>, src: Seq<T>, c: int, n: int, mv: Move, r: int, j: int)
    requires
        0 <= r < n,
        0 <= j < c,
    ensures
        0 <= r * c + j < n * c,
        moved(m, src, c, n, mv)[r * c + j] == (match mv.from(r) {
            Some(s) => src[s * c + j],
            None => m.zero(),
        }),
{
    lemma_flat(r, n, j, c);
    lemma_unflat(r, j, c);
}

/// The first multiple of 12 that is not below a number is but one.
proof fn lemma_pad_up(n: int, p: int)
    requires
        0 <= n <= p < n + 12,
        p % 12 == 0,
    ensures
        pad_up(n) == p,
{
}

impl<T: Scalar> SwinBlock<T> {
    /// The block works on an image of `h` by `w` positions that is padded to `hp` by `wp`, the
    /// least multiples of the window size.
    pub open spec fn covers(self, h: usize, w: usize, hp: usize, wp: usize) -> bool {
        &&& 0 < self.features()
        &&& h <= hp < h + 12
        &&& w <= wp < w + 12
        &&& hp % 12 == 0
        &&& wp % 12 == 0
        &&& self.shift <= hp
        &&& self.shift <= wp
    }

    /// A block keeps positions. The normalised features of position `(y, col)` go into attention
    /// at one place, and what attention makes there comes back to `(y, col)` and is added to the
    /// features of `(y, col)`, whatever attention does and however the image is turned.
    pub proof fn lemma_block_keeps_positions(
        self,
        m: Arith<T>,
        x: Seq<T>,
        h: usize,
        w: usize,
        mask: Option<Seq<T>>,
        hp: usize,
        wp: usize,
        y: int,
        col: int,
        j: int,
    )
        requires
            self.covers(h, w, hp, wp),
            (h * w) * self.features() <= x.len(),
            0 <= y < h,
            0 <= col < w,
            0 <= j < self.features(),
        ensures
            ({
                let c = self.features();
                let s = slot(hp as int, wp as int, self.shift as int, y, col);
                let all = self.windows_in(m, x, h, w);
                let made = self.attn.out(m, all, window_count(h, w), mask);
                &&& 0 <= s < hp * wp
                &&& all.len() == (hp * wp) * c
                &&& all[s * c + j] == self.norm1.out(m, x)[(y * w + col) * c + j]
                &&& self.image_out(m, x, h, w, mask)[(y * wp + col) * c + j] == made[s * c + j]
                &&& self.middle(m, x, h, w, mask)[(y * w + col) * c + j] == (m.plus)(
                    x[(y * w + col) * c + j],
                    made[s * c + j],
                )
            }),
    {
        let c = self.features();
        let by = self.shift;
        lemma_pad_up(h as int, hp as int);
        lemma_pad_up(w as int, wp as int);
        let row = (y + hp - by) % hp as int;
        let column = (col + wp - by) % wp as int;
        let q = row * wp + column;
        let s = slot(hp as int, wp as int, by as int, y, col);
        let n = hp * wp;
        let rows = hp as int / 12;
        assert(n == 12 * rows * wp && n == window_count(h, w) * 144) by {
            let b = wp as int / 12;
            assert(hp * wp == 12 * rows * wp && (rows * b) * 144 == hp * wp) by (nonlinear_arith)
                requires
                    hp == 12 * rows,
                    wp == 12 * b,
            ;
        }
        assert(window_count(h, w) == rows * (wp as int / 12));
        lemma_flat(row, hp as int, column, wp as int);
        lemma_unflat(row, column, wp as int);
        lemma_merge_undoes_split(q, rows, wp);
        lemma_merge_within(q, rows, wp as int);
        assert((Move::Merge { wp }).from(q) == Some(s));
        lemma_turned_back(y, by as int, hp as int);
        lemma_turned_back(col, by as int, wp as int);
        if by == 0 {
            vstd::arithmetic::div_mod::lemma_mod_add_multiples_vanish(y, hp as int);
            vstd::arithmetic::div_mod::lemma_mod_add_multiples_vanish(col, wp as int);
            vstd::arithmetic::div_mod::lemma_small_mod(y as nat, hp as nat);
            vstd::arithmetic::div_mod::lemma_small_mod(col as nat, wp as nat);
        }
        let at = y * wp + col;
        lemma_flat(y, hp as int, col, wp as int);
        lemma_unflat(y, col, wp as int);
        let normed = self.norm1.out(m, x);
        let padded = moved(m, normed, c, n, Move::Pad { h, w, wp });
        lemma_moved_row(m, normed, c, n, Move::Pad { h, w, wp }, at, j);
        let roll = Move::Roll { hp, wp, by };
        let turned = if by > 0 {
            moved(m, padded, c, n, roll)
        } else {
            padded
        };
        assert(roll.from(q) == Some(at));
        lemma_moved_row(m, padded, c, n, roll, q, j);
        assert(turned[q * c + j] == normed[(y * w + col) * c + j]);
        let all = self.windows_in(m, x, h, w);
        lemma_moved_row(m, turned, c, n, Move::Split { wp }, s, j);
        let made = self.attn.out(m, all, window_count(h, w), mask);
        let merged = moved(m, made, c, n, Move::Merge { wp });
        lemma_moved_row(m, made, c, n, Move::Merge { wp }, q, j);
        let back = Move::Unroll { hp, wp, by };
        assert(back.from(at) == Some(q));
        lemma_moved_row(m, merged, c, n, back, at, j);
        let r = y * w + col;
        lemma_flat(y, h as int, col, w as int);
        lemma_unflat(y, col, w as int);
        lemma_flat(r, h * w, j, c);
        lemma_unflat(r, j, c);
    }

    /// Where attention gives back its windows as they are, the image that it makes holds at
    /// every position the normalised features of that very position.
    pub proof fn lemma_block_of_idle_attention(
        self,
        m: Arith<T>,
        x: Seq<T>,
        h: usize,
        w: usize,
        mask: Option<Seq<T>>,
        hp: usize,
        wp: usize,
        y: int,
        col: int,
        j: int,
    )
        requires
            self.covers(h, w, hp, wp),
            (h * w) * self.features() <= x.len(),
            0 <= y < h,
            0 <= col < w,
            0 <= j < self.features(),
            self.attn.out(m, self.windows_in(m, x, h, w), window_count(h, w), mask)
                == self.windows_in(m, x, h, w),
        ensures
            self.image_out(m, x, h, w, mask)[(y * wp + col) * self.features() + j]
                == self.norm1.out(m, x)[(y * w + col) * self.features() + j],
            self.middle(m, x, h, w, mask)[(y * w + col) * self.features() + j] == (m.plus)(
                x[(y * w + col) * self.features() + j],
                self.norm1.out(m, x)[(y * w + col) * self.features() + j],
            ),
    {
        self.lemma_block_keeps_positions(m, x, h, w, mask, hp, wp, y, col, j);
    }

    /// What a block gives is what goes in, plus what attention makes of it, plus what the
    /// perceptron makes of that, element by element.
    pub proof fn lemma_block_adds(
        self,
        m: Arith<T>,
        x: Seq<T>,
        h: usize,
        w: usize,
        mask: Option<Seq<T>>,
        hp: usize,
        wp: usize,
        y: int,
        col: int,
        j: int,
        mid: Seq<T>,
    )
        requires
            self.covers(h, w, hp, wp),
            x.len() == (h * w) * self.features(),
            0 <= y < h,
            0 <= col < w,
            0 <= j < self.features(),
            mid.len() == x.len(),
            forall|a: int, b: int, k: int|
                #![trigger mid[(a * w + b) * self.features() + k]]
                0 <= a < h && 0 <= b < w && 0 <= k < self.features() ==> mid[(a * w + b)
                    * self.features() + k] == (m.plus)(
                    x[(a * w + b) * self.features() + k],
                    self.attn.out(m, self.windows_in(m, x, h, w), window_count(h, w), mask)[slot(
                        hp as int,
                        wp as int,
                        self.shift as int,
                        a,
                        b,
                    ) * self.features() + k],
                ),
            self.mlp.out(m, self.norm2.out(m, mid)).len() == x.len(),
        ensures
            self.out(m, x, h, w, mask)[(y * w + col) * self.features() + j] == (m.plus)(
                mid[(y * w + col) * self.features() + j],
                self.mlp.out(m, self.norm2.out(m, mid))[(y * w + col) * self.features() + j],
            ),
    {
        let c = self.features();
        let got = self.middle(m, x, h, w, mask);
        assert forall|i: int| 0 <= i < x.len() implies got[i] == mid[i] by {
            crate::index::lemma_split(i, h * w, c);
            crate::index::lemma_split(i / c, h as int, w as int);
            let (a, b, k) = ((i / c) / w as int, (i / c) % w as int, i % c);
            self.lemma_block_keeps_positions(m, x, h, w, mask, hp, wp, a, b, k);
            assert(mid[(a * w + b) * c + k] == got[(a * w + b) * c + k]);
        }
        assert(got =~= mid);
        lemma_flat(y, h as int, col, w as int);
        lemma_flat(y * w + col, h * w, j, c);
    }
}

// ---- masks ----------------------------------------------------------------------------

/// In an image of at least two windows each way that is turned round by half a window, two
/// positions of a window may see each other exactly where they are neighbours in the image as it
/// was: less than a window apart both ways. A window that was put together from two sides of the
/// image keeps them apart.
pub proof fn lemma_mask_parts_strangers<T>(
    m: Arith<T>,
    hp: int,
    wp: int,
    window: int,
    i: int,
    j: int,
)
    requires
        24 <= hp,
        24 <= wp,
        hp % 12 == 0,
        wp % 12 == 0,
        0 <= window < (hp / 12) * (wp / 12),
        0 <= i < 144,
        0 <= j < 144,
    ensures
        ({
            let top = (window / (wp / 12)) * 12;
            let left = (window % (wp / 12)) * 12;
            let (yi, xi) = ((top + i / 12 + 6) % hp, (left + i % 12 + 6) % wp);
            let (yj, xj) = ((top + j / 12 + 6) % hp, (left + j % 12 + 6) % wp);
            let near = -12 < yi - yj < 12 && -12 < xi - xj < 12;
            mask_at(m, hp, wp, window, i, j) == (if near {
                m.zero()
            } else {
                (m.bits)(crate::mask::MINUS_HUNDRED)
            })
        }),
{
    let (a, b) = (hp / 12, wp / 12);
    crate::index::lemma_split(window, a, b);
    let (wy, wx) = (window / b, window % b);
    lemma_unflat(window, i, 144);
    lemma_unflat(window, j, 144);
    lemma_turned_row(wy, i / 12, j / 12, a);
    lemma_turned_row(wx, i % 12, j % 12, b);
}

/// Of two rows of a row of windows, turned back by half a window.
proof fn lemma_turned_row(k: int, i: int, j: int, n: int)
    requires
        2 <= n,
        0 <= k < n,
        0 <= i < 12,
        0 <= j < 12,
    ensures
        ({
            let (a, b) = ((k * 12 + i + 6) % (12 * n), (k * 12 + j + 6) % (12 * n));
            (-12 < a - b < 12) == (crate::mask::region(k * 12 + i, 12 * n) == crate::mask::region(
                k * 12 + j,
                12 * n,
            ))
        }),
{
    let (p, q) = (k * 12 + i + 6, k * 12 + j + 6);
    if p < 12 * n {
        vstd::arithmetic::div_mod::lemma_small_mod(p as nat, (12 * n) as nat);
    } else {
        vstd::arithmetic::div_mod::lemma_mod_sub_multiples_vanish(p, 12 * n);
        vstd::arithmetic::div_mod::lemma_small_mod((p - 12 * n) as nat, (12 * n) as nat);
    }
    if q < 12 * n {
        vstd::arithmetic::div_mod::lemma_small_mod(q as nat, (12 * n) as nat);
    } else {
        vstd::arithmetic::div_mod::lemma_mod_sub_multiples_vanish(q, 12 * n);
        vstd::arithmetic::div_mod::lemma_small_mod((q - 12 * n) as nat, (12 * n) as nat);
    }
}

// ---- from stage to stage --------------------------------------------------------------

/// Of four neighbours that are put together, the features of the one `q % 2` down and `q / 2`
/// to the right come at place `q`, and zeros where the image ends.
pub proof fn lemma_neighbours_together<T>(
    m: Arith<T>,
    src: Seq<T>,
    c: int,
    h: usize,
    w: usize,
    y: int,
    x: int,
    q: int,
    j: int,
)
    requires
        0 <= y < half(h as int),
        0 <= x < half(w as int),
        0 <= q < 4,
        0 <= j < c,
    ensures
        ({
            let n = (half(h as int) * half(w as int)) * 4;
            let (yy, xx) = (2 * y + q % 2, 2 * x + q / 2);
            moved(m, src, c, n, Move::Fold { h, w })[((y * half(w as int) + x) * 4 + q) * c + j]
                == (if yy < h && xx < w {
                src[(yy * w + xx) * c + j]
            } else {
                m.zero()
            })
        }),
{
    let (a, b) = (half(h as int), half(w as int));
    let n = (a * b) * 4;
    lemma_flat(y, a, x, b);
    lemma_unflat(y, x, b);
    let r = (y * b + x) * 4 + q;
    lemma_unflat(y * b + x, q, 4);
    lemma_flat(y * b + x, a * b, q, 4);
    assert((r / 4) % (a * b) == y * b + x && r / 4 / (a * b) == 0) by {
        vstd::arithmetic::div_mod::lemma_small_mod((y * b + x) as nat, (a * b) as nat);
        vstd::arithmetic::div_mod::lemma_basic_div(y * b + x, a * b);
    }
    assert(0 * (h * w) == 0) by (nonlinear_arith);
    lemma_moved_row(m, src, c, n, Move::Fold { h, w }, r, j);
}

impl<T: Scalar> SwinStage<T> {
    /// The blocks of a stage work one after the other: a stage whose blocks are those of one
    /// stage followed by those of another makes of an image what the second makes of what the
    /// first makes of it.
    pub proof fn lemma_blocks_in_turn(
        self,
        first: SwinStage<T>,
        second: SwinStage<T>,
        m: Arith<T>,
        x: Seq<T>,
        h: usize,
        w: usize,
    )
        requires
            self.blocks@ == first.blocks@ + second.blocks@,
        ensures
            self.out(m, x, h, w) == second.out(m, first.out(m, x, h, w), h, w),
    {
        let k = first.blocks@.len() as int;
        self.lemma_first_blocks(first, m, x, h, w, k);
        self.lemma_further_blocks(first, second, m, x, h, w, second.blocks@.len() as int);
    }

    proof fn lemma_first_blocks(
        self,
        first: SwinStage<T>,
        m: Arith<T>,
        x: Seq<T>,
        h: usize,
        w: usize,
        n: int,
    )
        requires
            n <= first.blocks@.len() <= self.blocks@.len(),
            forall|i: int| 0 <= i < first.blocks@.len() ==> self.blocks@[i] == first.blocks@[i],
        ensures
            self.blocks_out(m, x, h, w, n) == first.blocks_out(m, x, h, w, n),
        decreases n,
    {
        if n > 0 {
            self.lemma_first_blocks(first, m, x, h, w, n - 1);
        }
    }

    proof fn lemma_further_blocks(
        self,
        first: SwinStage<T>,
        second: SwinStage<T>,
        m: Arith<T>,
        x: Seq<T>,
        h: usize,
        w: usize,
        n: int,
    )
        requires
            self.blocks@ == first.blocks@ + second.blocks@,
            0 <= n <= second.blocks@.len(),
        ensures
            self.blocks_out(m, x, h, w, first.blocks@.len() + n) == second.blocks_out(
                m,
                first.out(m, x, h, w),
                h,
                w,
                n,
            ),
        decreases n,
    {
        let k = first.blocks@.len() as int;
        if n > 0 {
            self.lemma_further_blocks(first, second, m, x, h, w, n - 1);
            assert(self.blocks@[k + n - 1] == second.blocks@[n - 1]);
        } else {
            self.lemma_first_blocks(first, m, x, h, w, k);
        }
    }
}

/// Sums of products of the same numbers are the same, wherever the numbers stand.
proof fn lemma_dot_moved<T>(
    m: Arith<T>,
    w: Seq<T>,
    i: int,
    x: Seq<T>,
    j: int,
    y: Seq<T>,
    k: int,
    n: int,
)
    requires
        forall|d: int| 0 <= d < n ==> x[j + d] == #[trigger] y[k + d],
    ensures
        dot(m, w, i, x, j, n) == dot(m, w, i, y, k, n),
    decreases n,
{
    if n > 0 {
        lemma_dot_moved(m, w, i, x, j, y, k, n - 1);
        assert(x[j + (n - 1)] == y[k + (n - 1)]);
    }
}

impl<T: Scalar> SwinStage<T> {
    /// A stage of one block does what the block does; it masks attention where the block turns
    /// its image round, and only there.
    pub proof fn lemma_stage_of_one_block(
        self,
        block: SwinBlock<T>,
        m: Arith<T>,
        x: Seq<T>,
        h: usize,
        w: usize,
        hp: usize,
        wp: usize,
    )
        requires
            self.blocks@ == seq![block],
            block.covers(h, w, hp, wp),
        ensures
            block.shift == 0 ==> self.out(m, x, h, w) == block.out(m, x, h, w, None),
            block.shift > 0 ==> self.out(m, x, h, w) == block.out(
                m,
                x,
                h,
                w,
                Some(crate::mask::mask_spec(m, hp as int, wp as int)),
            ),
    {
        lemma_pad_up(h as int, hp as int);
        lemma_pad_up(w as int, wp as int);
        reveal_with_fuel(SwinStage::blocks_out, 2);
        assert(self.blocks@[0] == block);
    }

    /// What a stage hands to the next for block `(y, col)` of 2 by 2 positions is what its map
    /// makes of one row of features, normalised: those of the position above on the left, of the
    /// one below it, of the one above on the right and of the one below it, with zeros where the
    /// image ends.
    pub proof fn lemma_down(
        self,
        m: Arith<T>,
        x: Seq<T>,
        h: usize,
        w: usize,
        c: int,
        y: int,
        col: int,
        o: int,
        row: Seq<T>,
    )
        requires
            self.steps_down(),
            0 < c,
            self.out(m, x, h, w).len() == (h * w) * c,
            self.downsample_norm->0.w@.len() == 4 * c,
            self.downsample->0.ic == 4 * c,
            0 <= o < self.downsample->0.oc,
            0 <= y < half(h as int),
            0 <= col < half(w as int),
            row.len() == 4 * c,
            forall|q: int, j: int|
                #![trigger row[q * c + j]]
                0 <= q < 4 && 0 <= j < c ==> row[q * c + j] == (if 2 * y + q % 2 < h && 2 * col + q
                    / 2 < w {
                    self.out(m, x, h, w)[((2 * y + q % 2) * w + (2 * col + q / 2)) * c + j]
                } else {
                    m.zero()
                }),
        ensures
            self.down(m, x, h, w, 1)[(y * half(w as int) + col) * self.downsample->0.oc + o]
                == self.downsample->0.out(m, self.downsample_norm->0.out(m, row))[o],
    {
        let out = self.out(m, x, h, w);
        let (a, b) = (half(h as int), half(w as int));
        let (norm, map) = (self.downsample_norm->0, self.downsample->0);
        let n = (a * b) * 4;
        let oc = map.oc as int;
        lemma_flat(y, a, col, b);
        assert(0 < h * w) by (nonlinear_arith)
            requires
                0 < h,
                0 < w,
        ;
        assert(1 * (h * w) == h * w && 1 * (a * b) == a * b) by (nonlinear_arith);
        assert((h * w) * c == c * (h * w) + 0) by (nonlinear_arith);
        lemma_unflat(c, 0, h * w);
        let folded = moved(m, out, c, n, Move::Fold { h, w });
        let r = y * b + col;
        let wide = 4 * c;
        assert(n * c == (a * b) * wide) by (nonlinear_arith)
            requires
                n == (a * b) * 4,
                wide == 4 * c,
        ;
        lemma_flat(r, a * b, 0, wide);
        lemma_unflat(a * b, 0, wide);
        lemma_unflat(1, 0, wide);
        let part = folded.subrange(r * wide, r * wide + wide);
        assert forall|i: int| 0 <= i < wide implies part[i] == row[i] by {
            crate::index::lemma_split(i, 4, c);
            let (q, j) = (i / c, i % c);
            lemma_neighbours_together(m, out, c, h, w, y, col, q, j);
            assert((r * 4 + q) * c + j == r * wide + i) by (nonlinear_arith)
                requires
                    wide == 4 * c,
                    i == q * c + j,
            ;
            assert(row[q * c + j] == row[i]);
        }
        assert(part =~= row);
        assert(row.subrange(0, wide) =~= row);
        let (all, one) = (norm.out(m, folded), norm.out(m, row));
        assert forall|d: int| 0 <= d < wide implies all[r * wide + d] == #[trigger] one[0 + d] by {
            lemma_flat(r, a * b, d, wide);
            lemma_unflat(r, d, wide);
            lemma_unflat(0, d, wide);
        }
        lemma_dot_moved(m, map.w@, o * wide, all, r * wide, one, 0, wide);
        lemma_flat(r, a * b, o, oc);
        lemma_unflat(r, o, oc);
        lemma_unflat(0, o, oc);
        assert(0 * oc == 0 && 1 * oc == oc && 0 * wide == 0) by (nonlinear_arith);
        assert(self.down(m, x, h, w, 1) == map.out(m, all));
        assert(all.len() == (a * b) * wide && all.len() as int / wide == a * b);
        assert(one.len() == wide && one.len() as int / wide == 1);
        assert(map.out(m, all)[r * oc + o] == biased(
            m,
            dot(m, map.w@, o * wide, all, r * wide, wide),
            held(map.b),
            o,
        ));
        assert(map.out(m, one)[o] == biased(
            m,
            dot(m, map.w@, o * wide, one, 0, wide),
            held(map.b),
            o,
        ));
    }
}

} // verus!
