//! Whether the parts of the network are defined on tensors of given dimensions.

use crate::attention::WindowAttention;
use crate::conv::{bias_fits, conv1x1_fits, conv_kxk_fits};
use crate::engine::{tile_planes, tiles_fit};
use crate::graph::{
    planes_of, Affine, AsppBranch, AsppDeformable, BasicDecBlk, DeformConv, GdtConv, SimpleConvs,
};
use crate::layout::steps_to_cover;
use crate::linear::{held_len, LayerNorm, Linear, Mlp};
use crate::model::Rmbg;
use crate::resize::resize_fits;
use crate::scalar::Scalar;
use crate::swin::{pad_up, SwinBlock, SwinStage, DIMS};
use crate::tensor::dims_fit;
use crate::windows::{half, half_up};
use vstd::prelude::*;

verus! {

// ---- products -------------------------------------------------------------------------

proof fn lemma_grows(a: int, b: int)
    requires
        0 <= a,
        1 <= b,
    ensures
        a <= a * b,
{
    assert(a <= a * b) by (nonlinear_arith)
        requires
            0 <= a,
            1 <= b,
    ;
}

/// Whether a product of four numbers is at most `limit`.
pub fn at_most(a: usize, b: usize, c: usize, d: usize, limit: usize) -> (r: bool)
    ensures
        r == (a * b * c * d <= limit),
{
    if a == 0 || b == 0 || c == 0 || d == 0 {
        assert(a * b * c * d == 0) by (nonlinear_arith)
            requires
                a == 0 || b == 0 || c == 0 || d == 0,
        ;
        return true;
    }
    proof {
        assert(0 <= a * b) by (nonlinear_arith)
            requires
                0 < a,
                0 < b,
        ;
        lemma_grows(a * b, c as int);
        lemma_grows(a * b * c, d as int);
    }
    match a.checked_mul(b) {
        None => false,
        Some(ab) => match ab.checked_mul(c) {
            None => false,
            Some(abc) => match abc.checked_mul(d) {
                None => false,
                Some(n) => n <= limit,
            },
        },
    }
}

/// Whether a tensor of these dimensions has a length.
pub fn dims_ok(c: usize, h: usize, w: usize) -> (r: bool)
    ensures
        r == dims_fit(c as int, h as int, w as int),
{
    match h.checked_mul(w) {
        None => false,
        Some(hw) => match c.checked_mul(hw) {
            None => false,
            Some(_) => true,
        },
    }
}

/// A number that may be missing.
pub open spec fn wide(n: Option<usize>) -> Option<int> {
    match n {
        Some(v) => Some(v as int),
        None => None,
    }
}

/// Whether a bias is long enough.
pub fn bias_ok(oc: usize, blen: Option<usize>) -> (r: bool)
    ensures
        r == bias_fits(oc as int, wide(blen)),
{
    match blen {
        Some(n) => oc <= n,
        None => true,
    }
}

/// Whether a convolution of single positions is defined.
pub fn conv1x1_ok(
    xc: usize,
    h: usize,
    w: usize,
    wlen: usize,
    oc: usize,
    ic: usize,
    blen: Option<usize>,
) -> (r: bool)
    ensures
        r == conv1x1_fits(
            xc as int,
            h as int,
            w as int,
            wlen as int,
            oc as int,
            ic as int,
            wide(blen),
        ),
{
    ic <= xc && at_most(oc, ic, 1, 1, wlen) && bias_ok(oc, blen) && dims_ok(oc, h, w)
}

/// Whether a square convolution is defined.
pub fn conv_kxk_ok(
    xc: usize,
    h: usize,
    w: usize,
    wlen: usize,
    oc: usize,
    ic: usize,
    k: usize,
    blen: Option<usize>,
) -> (r: bool)
    ensures
        r == conv_kxk_fits(
            xc as int,
            h as int,
            w as int,
            wlen as int,
            oc as int,
            ic as int,
            k as int,
            wide(blen),
        ),
{
    ic <= xc && at_most(oc, ic, k, k, wlen) && bias_ok(oc, blen) && dims_ok(oc, h, w)
}

/// Whether bilinear interpolation is defined.
pub fn resize_ok(c: usize, h: usize, w: usize, oh: usize, ow: usize) -> (r: bool)
    ensures
        r == resize_fits(c as int, h as int, w as int, oh as int, ow as int),
{
    1 <= h && 1 <= w && dims_ok(c, oh, ow)
}

/// The number of planes of the tiles of an image, where it can be cut into them.
fn tiles_of(c: usize, xh: usize, xw: usize, h: usize, w: usize) -> (r: Option<usize>)
    ensures
        match r {
            Some(n) => tiles_fit(c as int, xh as int, xw as int, h as int, w as int) && n
                == tile_planes(c as int, xh as int, xw as int, h as int, w as int),
            None => !tiles_fit(c as int, xh as int, xw as int, h as int, w as int),
        },
{
    if h == 0 || w == 0 {
        return None;
    }
    let rows = steps_to_cover(xh, h);
    let cols = steps_to_cover(xw, w);
    let n = if cols == 0 {
        assert((c * rows) * cols == 0) by (nonlinear_arith)
            requires
                cols == 0,
        ;
        0
    } else {
        proof {
            assert(0 <= c * rows) by (nonlinear_arith)
                requires
                    0 <= c,
                    0 <= rows,
            ;
            lemma_grows(c * rows, cols as int);
        }
        match c.checked_mul(rows) {
            None => {
                return None;
            },
            Some(cr) => match cr.checked_mul(cols) {
                None => {
                    return None;
                },
                Some(n) => n,
            },
        }
    };
    if dims_ok(n, h, w) {
        Some(n)
    } else {
        None
    }
}

// ---- the layers -----------------------------------------------------------------------

fn length_of<T>(b: &Option<Vec<T>>) -> (r: Option<usize>)
    ensures
        wide(r) == held_len(*b),
{
    match b {
        Some(v) => Some(v.len()),
        None => None,
    }
}

impl<T: Scalar> Linear<T> {
    /// Whether the map is defined on `n` elements.
    pub fn is_fit(&self, n: usize) -> (r: bool)
        ensures
            r == self.fits(n as int),
    {
        if self.ic == 0 || self.oc == 0 {
            return false;
        }
        let rows = n / self.ic;
        if !at_most(rows, self.oc, 1, 1, usize::MAX) {
            return false;
        }
        rows == 0 || at_most(self.oc, self.ic, 1, 1, self.w.len()) && bias_ok(
            self.oc,
            length_of(&self.b),
        )
    }

    /// Number of elements that the map makes of `n`.
    fn made_of(&self, n: usize) -> (r: usize)
        requires
            self.fits(n as int),
        ensures
            r == self.out_len(n as int),
    {
        (n / self.ic) * self.oc
    }
}

impl<T: Scalar> LayerNorm<T> {
    /// Whether the norm is defined.
    pub fn is_fit(&self) -> (r: bool)
        ensures
            r == self.fits(),
    {
        0 < self.w.len() && self.w.len() <= self.b.len()
    }
}

impl<T: Scalar> Mlp<T> {
    /// Whether the perceptron is defined on `n` elements.
    pub fn is_fit(&self, n: usize) -> (r: bool)
        ensures
            r == self.fits(n as int),
    {
        self.fc1.is_fit(n) && self.fc2.is_fit(self.fc1.made_of(n))
    }
}

impl<T: Scalar> WindowAttention<T> {
    /// Whether every place of the index lies in the table.
    fn index_is_fit(&self) -> (r: bool)
        requires
            20736 <= self.index@.len(),
        ensures
            r == (forall|i: int|
                0 <= i < 20736 ==> (#[trigger] self.index@[i] + 1) * self.heads
                    <= self.bias_table@.len()),
    {
        let mut i: usize = 0;
        while i < 20736
            invariant
                i <= 20736,
                20736 <= self.index@.len(),
                forall|j: int|
                    0 <= j < i ==> (#[trigger] self.index@[j] + 1) * self.heads
                        <= self.bias_table@.len(),
            decreases 20736 - i,
        {
            let k = self.index[i];
            let inside = if k == usize::MAX {
                if self.heads == 0 {
                    assert((k + 1) * self.heads == 0) by (nonlinear_arith)
                        requires
                            self.heads == 0,
                    ;
                    true
                } else {
                    proof {
                        lemma_grows(k + 1, self.heads as int);
                    }
                    assert(self.bias_table@.len() == self.bias_table.len());
                    false
                }
            } else {
                at_most(k + 1, self.heads, 1, 1, self.bias_table.len())
            };
            if !inside {
                assert(!((self.index@[i as int] + 1) * self.heads <= self.bias_table@.len()));
                return false;
            }
            i += 1;
        }
        true
    }

    /// Whether the windows are defined.
    fn windows_are_fit(&self, n: usize, windows: usize, n_win: usize, mask: Option<usize>) -> (r:
        bool)
        requires
            0 < self.dim,
            0 < self.heads,
            self.qkv.fits(n as int),
            144 * self.dim <= usize::MAX,
            windows == n as int / (144 * self.dim),
            0 < windows,
        ensures
            r == {
                &&& ((windows * 144 - 1) * 3 + 2) * self.dim + self.heads * (self.dim as int
                    / self.heads as int) <= self.qkv.out_len(n as int)
                &&& 20736 <= self.index@.len()
                &&& forall|i: int|
                    0 <= i < 20736 ==> (#[trigger] self.index@[i] + 1) * self.heads
                        <= self.bias_table@.len()
                &&& wide(mask) matches Some(len) ==> 0 < n_win && (if windows < n_win {
                    windows as int
                } else {
                    n_win as int
                }) * 20736 <= len
            },
    {
        let ghost d = self.dim as int;
        let ghost hh = self.heads as int;
        let ghost k = windows as int;
        assert(k * (144 * d) <= n) by (nonlinear_arith)
            requires
                k == n as int / (144 * d),
                0 < d,
        ;
        assert((k * 144) * d == k * (144 * d)) by (nonlinear_arith);
        assert(k * 144 <= (k * 144) * d) by (nonlinear_arith)
            requires
                0 <= k,
                1 <= d,
        ;
        assert(((k * 144 - 1) * 3 + 2) * d == 3 * ((k * 144) * d) - d) by (nonlinear_arith);
        assert(hh * (d / hh) <= d) by (nonlinear_arith)
            requires
                0 < hh,
                0 < d,
        ;
        assert(0 <= hh * (d / hh)) by (nonlinear_arith)
            requires
                0 < hh,
                0 < d,
        ;
        assert(d <= (k * 144) * d) by (nonlinear_arith)
            requires
                1 <= k,
                0 < d,
        ;
        let all = (windows * 144) * self.dim;
        let heads = self.heads * (self.dim / self.heads);
        let need = 3 * (all as u128) - self.dim as u128 + heads as u128;
        if need > self.qkv.made_of(n) as u128 {
            return false;
        }
        if self.index.len() < 20736 {
            return false;
        }
        if !self.index_is_fit() {
            return false;
        }
        match mask {
            None => true,
            Some(len) => {
                let w = if windows < n_win {
                    windows
                } else {
                    n_win
                };
                0 < n_win && at_most(w, 20736, 1, 1, len)
            },
        }
    }

    /// Whether attention is defined on `n` elements.
    pub fn is_fit(&self, n: usize, n_win: usize, mask: Option<usize>) -> (r: bool)
        ensures
            r == self.fits(n as int, n_win as int, wide(mask)),
    {
        if self.dim == 0 || self.heads == 0 || self.dim > usize::MAX / 144 {
            return false;
        }
        let windows = n / (144 * self.dim);
        if !at_most(windows, self.heads, 1, 1, usize::MAX) || !self.qkv.is_fit(n) {
            return false;
        }
        if windows > 0 && !self.windows_are_fit(n, windows, n_win, mask) {
            return false;
        }
        self.proj.is_fit(n)
    }
}

// ---- the backbone ---------------------------------------------------------------------

/// The size with its padding, where there is one.
fn padded_size(n: usize) -> (r: Option<usize>)
    ensures
        match r {
            Some(p) => p == pad_up(n as int),
            None => pad_up(n as int) > usize::MAX,
        },
{
    let add = (12 - n % 12) % 12;
    if n > usize::MAX - add {
        None
    } else {
        Some(n + add)
    }
}

impl<T: Scalar> SwinBlock<T> {
    /// Whether the block is defined on `n` elements of a grid.
    pub fn is_fit(&self, n: usize, h: usize, w: usize, mask: Option<usize>) -> (r: bool)
        ensures
            r == self.fits(n as int, h, w, wide(mask)),
    {
        let c = self.norm1.w.len();
        if !self.norm1.is_fit() || !self.norm2.is_fit() {
            return false;
        }
        let (hp, wp) = match (padded_size(h), padded_size(w)) {
            (Some(hp), Some(wp)) => (hp, wp),
            _ => {
                return false;
            },
        };
        proof {
            lemma_grows(hp * wp, c as int);
            lemma_grows(h * w, c as int);
            assert(0 <= hp * wp) by (nonlinear_arith)
                requires
                    0 <= hp,
                    0 <= wp,
            ;
            assert(0 <= h * w) by (nonlinear_arith)
                requires
                    0 <= h,
                    0 <= w,
            ;
            assert((hp as int / 12) * (wp as int / 12) <= hp * wp) by (nonlinear_arith)
                requires
                    0 <= hp,
                    0 <= wp,
            ;
            assert(0 <= (hp as int / 12) * (wp as int / 12)) by (nonlinear_arith)
                requires
                    0 <= hp,
                    0 <= wp,
            ;
        }
        let all = match hp.checked_mul(wp) {
            None => {
                return false;
            },
            Some(g) => match g.checked_mul(c) {
                None => {
                    return false;
                },
                Some(a) => a,
            },
        };
        if !at_most(h, w, c, 1, n) {
            return false;
        }
        if self.shift > 0 && 0 < all && (self.shift > hp || self.shift > wp) {
            return false;
        }
        self.attn.is_fit(all, (hp / 12) * (wp / 12), mask) && all <= self.attn.proj.made_of(all)
            && self.mlp.is_fit(n)
    }
}

impl<T: Scalar> SwinStage<T> {
    /// Whether every block is defined on `n` elements of a grid.
    fn blocks_are_fit(&self, n: usize, h: usize, w: usize, mask_len: usize) -> (r: bool)
        ensures
            r == (forall|i: int|
                0 <= i < self.blocks@.len() ==> (#[trigger] self.blocks@[i]).fits(
                    n as int,
                    h,
                    w,
                    if self.blocks@[i].shift > 0 {
                        Some(mask_len as int)
                    } else {
                        None
                    },
                )),
    {
        let mut i: usize = 0;
        while i < self.blocks.len()
            invariant
                i <= self.blocks@.len(),
                forall|j: int|
                    0 <= j < i ==> (#[trigger] self.blocks@[j]).fits(
                        n as int,
                        h,
                        w,
                        if self.blocks@[j].shift > 0 {
                            Some(mask_len as int)
                        } else {
                            None
                        },
                    ),
            decreases self.blocks@.len() - i,
        {
            let mask = if self.blocks[i].shift > 0 {
                Some(mask_len)
            } else {
                None
            };
            if !self.blocks[i].is_fit(n, h, w, mask) {
                let ghost b = self.blocks@[i as int];
                assert(!b.fits(
                    n as int,
                    h,
                    w,
                    if b.shift > 0 {
                        Some(mask_len as int)
                    } else {
                        None
                    },
                ));
                return false;
            }
            i += 1;
        }
        true
    }

    /// Number of elements that go to the next stage, where the stage is defined on `n` elements
    /// of a grid.
    pub fn is_fit(&self, n: usize, h: usize, w: usize) -> (r: Option<usize>)
        ensures
            match r {
                Some(d) => self.fits(n as int, h, w, 1) && d == self.down_len(n as int, h, w, 1),
                None => !self.fits(n as int, h, w, 1),
            },
    {
        let (hp, wp) = match (padded_size(h), padded_size(w)) {
            (Some(hp), Some(wp)) => (hp, wp),
            _ => {
                return None;
            },
        };
        if hp > isize::MAX as usize || wp > isize::MAX as usize {
            return None;
        }
        proof {
            assert(0 <= (hp as int / 12) * (wp as int / 12)) by (nonlinear_arith)
                requires
                    0 <= hp,
                    0 <= wp,
            ;
        }
        let mask_len = match (hp / 12).checked_mul(wp / 12) {
            None => {
                return None;
            },
            Some(k) => match k.checked_mul(20736) {
                None => {
                    return None;
                },
                Some(m) => m,
            },
        };
        if !self.blocks_are_fit(n, h, w, mask_len) {
            return None;
        }
        match (&self.downsample_norm, &self.downsample) {
            (Some(norm), Some(down)) => {
                let hw = match h.checked_mul(w) {
                    None => {
                        return None;
                    },
                    Some(hw) => hw,
                };
                if hw == 0 {
                    return None;
                }
                let c = n / hw;
                if c == 0 || c > usize::MAX / 2 || !norm.is_fit() {
                    return None;
                }
                proof {
                    let a = half(h as int) * half(w as int);
                    assert(0 <= a) by (nonlinear_arith)
                        requires
                            a == half(h as int) * half(w as int),
                            0 <= half(h as int),
                            0 <= half(w as int),
                    ;
                    lemma_grows(a * 4, c as int);
                }
                let folded = match half_up(h).checked_mul(half_up(w)) {
                    None => {
                        return None;
                    },
                    Some(a) => match a.checked_mul(4) {
                        None => {
                            return None;
                        },
                        Some(b) => match b.checked_mul(c) {
                            None => {
                                return None;
                            },
                            Some(f) => f,
                        },
                    },
                };
                if down.is_fit(folded) {
                    Some(down.made_of(folded))
                } else {
                    None
                }
            },
            _ => Some(n),
        }
    }

    fn has_next(&self) -> (r: bool)
        ensures
            r == self.steps_down(),
    {
        self.downsample_norm.is_some() && self.downsample.is_some()
    }
}

impl<T: Scalar> Rmbg<T> {
    /// Rows or columns that stage `s` works on.
    pub fn size_of_stage(&self, n: usize, s: usize) -> (r: usize)
        requires
            self.complete(),
            s < 4,
        ensures
            r == self.size_at(n as int, s as int),
    {
        let mut size = n / 4;
        let mut k: usize = 0;
        while k < s
            invariant
                self.complete(),
                k <= s < 4,
                size == self.size_at(n as int, k as int),
            decreases s - k,
        {
            size = if self.stages[k].has_next() {
                half_up(size)
            } else {
                0
            };
            k += 1;
        }
        size
    }

    fn is_complete(&self) -> (r: bool)
        ensures
            r == self.complete(),
    {
        self.stages.len() == 4 && self.norm_w.len() == 4 && self.norm_b.len() == 4
            && self.decoder.ipt.len() == 5 && self.decoder.blocks.len() == 4
            && self.decoder.ms.len() == 3 && self.decoder.gdt.len() == 3
    }

    /// Whether the backbone is defined on tensors of these dimensions.
    pub fn backbone_is_fit(&self, c: usize, h: usize, w: usize) -> (r: bool)
        ensures
            r == self.backbone_fits(c as int, h as int, w as int),
    {
        reveal(Rmbg::backbone_fits);
        if !self.is_complete() || c < 3 || self.proj_w.len() < 9216 || self.proj_b.len() < 192
            || self.pe_norm_w.len() < 192 || self.pe_norm_b.len() < 192 {
            return false;
        }
        if !dims_ok(192, h / 4, w / 4) {
            return false;
        }
        let mut n = 192 * ((h / 4) * (w / 4));
        let mut s: usize = 0;
        while s < 4
            invariant
                self.complete(),
                s <= 4,
                s < 4 ==> n == self.elements_at(h as int, w as int, s as int),
                forall|k: int| 0 <= k < s ==> #[trigger] self.stage_fits(h as int, w as int, k),
            decreases 4 - s,
        {
            reveal(Rmbg::backbone_fits);
            let gh = self.size_of_stage(h, s);
            let gw = self.size_of_stage(w, s);
            let dim = DIMS[s];
            assert(self.stage_fits(h as int, w as int, s as int) == {
                &&& self.stages@[s as int].fits(n as int, gh, gw, 1)
                &&& dim <= self.norm_w@[s as int]@.len()
                &&& dim <= self.norm_b@[s as int]@.len()
                &&& dims_fit(dim as int, gh as int, gw as int)
                &&& dim * (gh * gw) <= n
            });
            let next = match self.stages[s].is_fit(n, gh, gw) {
                None => {
                    return false;
                },
                Some(d) => d,
            };
            if dim > self.norm_w[s].len() || dim > self.norm_b[s].len() || !dims_ok(dim, gh, gw) {
                return false;
            }
            if dim * (gh * gw) > n {
                return false;
            }
            n = next;
            s += 1;
        }
        true
    }
}

// ---- the encoder ----------------------------------------------------------------------

impl<T: Scalar> Rmbg<T> {
    fn lateral_is_fit(&self, h: usize, w: usize, s: usize) -> (r: bool)
        requires
            self.complete(),
            s < 4,
        ensures
            r == self.lateral_fits(h as int, w as int, s as int),
    {
        let fh = self.size_of_stage(h, s);
        let fw = self.size_of_stage(w, s);
        let dim = DIMS[s];
        resize_ok(dim, self.size_of_stage(h / 2, s), self.size_of_stage(w / 2, s), fh, fw)
            && dims_ok(2 * dim, fh, fw) && (s >= 3 || resize_ok(
            2 * dim,
            fh,
            fw,
            self.size_of_stage(h, 3),
            self.size_of_stage(w, 3),
        ))
    }

    /// Whether the encoder is defined on tensors of these dimensions.
    pub fn encoder_is_fit(&self, c: usize, h: usize, w: usize) -> (r: bool)
        ensures
            r == self.encoder_fits(c as int, h as int, w as int),
    {
        reveal(Rmbg::encoder_fits);
        if !self.backbone_is_fit(c, h, w) || !resize_ok(c, h, w, h / 2, w / 2)
            || !self.backbone_is_fit(c, h / 2, w / 2) {
            return false;
        }
        proof {
            reveal(Rmbg::backbone_fits);
        }
        let mut s: usize = 0;
        while s < 4
            invariant
                self.complete(),
                s <= 4,
                forall|k: int| 0 <= k < s ==> #[trigger] self.lateral_fits(h as int, w as int, k),
            decreases 4 - s,
        {
            reveal(Rmbg::encoder_fits);
            if !self.lateral_is_fit(h, w, s) {
                assert(!self.lateral_fits(h as int, w as int, s as int));
                return false;
            }
            s += 1;
        }
        dims_ok(5760, self.size_of_stage(h, 3), self.size_of_stage(w, 3))
    }
}

// ---- the decoder ----------------------------------------------------------------------

impl<T: Scalar> Affine<T> {
    /// Whether there is a scale and a shift for each of `c` planes.
    pub fn is_fit(&self, c: usize) -> (r: bool)
        ensures
            r == self.fits(c as int),
    {
        c <= self.scale.len() && c <= self.shift.len()
    }
}

impl<T: Scalar> DeformConv<T> {
    /// Whether the convolution is defined on tensors of these dimensions.
    pub fn is_fit(&self, c: usize, h: usize, w: usize) -> (r: bool)
        ensures
            r == self.fits(c as int, h as int, w as int),
    {
        let ghost kk = self.k * self.k;
        assert(0 <= kk) by (nonlinear_arith)
            requires
                kk == self.k * self.k,
        ;
        let cells = match self.k.checked_mul(self.k) {
            None => {
                return false;
            },
            Some(n) => n,
        };
        if cells > usize::MAX / 2 {
            return false;
        }
        conv_kxk_ok(
            c,
            h,
            w,
            self.offset_w.len(),
            2 * cells,
            self.ic,
            self.k,
            Some(self.offset_b.len()),
        ) && conv_kxk_ok(
            c,
            h,
            w,
            self.modulator_w.len(),
            cells,
            self.ic,
            self.k,
            Some(self.modulator_b.len()),
        ) && at_most(self.oc, c, self.k, self.k, self.regular_w.len()) && dims_ok(self.oc, h, w)
    }
}

impl<T: Scalar> AsppBranch<T> {
    /// Whether the branch is defined on tensors of these dimensions.
    pub fn is_fit(&self, c: usize, h: usize, w: usize) -> (r: bool)
        ensures
            r == self.fits(c as int, h as int, w as int),
    {
        self.conv.is_fit(c, h, w) && self.bn.is_fit(self.conv.oc)
    }
}

proof fn lemma_planes_grow<T>(branches: Seq<AsppBranch<T>>, k: int, n: int)
    requires
        0 <= k <= n <= branches.len(),
    ensures
        planes_of(branches, k) <= planes_of(branches, n),
    decreases n - k,
{
    if k < n {
        lemma_planes_grow(branches, k, n - 1);
    }
}

impl<T: Scalar> AsppDeformable<T> {
    /// The planes of all branches, where they are defined and can be counted.
    fn branches_planes(&self, c: usize, h: usize, w: usize) -> (r: Option<usize>)
        ensures
            ({
                let fit = forall|i: int|
                    0 <= i < self.deforms@.len() ==> (#[trigger] self.deforms@[i]).fits(
                        c as int,
                        h as int,
                        w as int,
                    );
                let planes = planes_of(self.deforms@, self.deforms@.len() as int);
                match r {
                    Some(n) => fit && n == planes,
                    None => !fit || planes > usize::MAX,
                }
            }),
    {
        let mut n: usize = 0;
        let mut i: usize = 0;
        while i < self.deforms.len()
            invariant
                i <= self.deforms@.len(),
                n == planes_of(self.deforms@, i as int),
                forall|j: int|
                    0 <= j < i ==> (#[trigger] self.deforms@[j]).fits(
                        c as int,
                        h as int,
                        w as int,
                    ),
            decreases self.deforms@.len() - i,
        {
            if !self.deforms[i].is_fit(c, h, w) {
                assert(!self.deforms@[i as int].fits(c as int, h as int, w as int));
                return None;
            }
            match n.checked_add(self.deforms[i].conv.oc) {
                None => {
                    proof {
                        lemma_planes_grow(self.deforms@, i + 1, self.deforms@.len() as int);
                    }
                    return None;
                },
                Some(k) => {
                    n = k;
                },
            }
            i += 1;
        }
        Some(n)
    }

    /// Whether the pyramid is defined on tensors of these dimensions.
    pub fn is_fit(&self, c: usize, h: usize, w: usize) -> (r: bool)
        ensures
            r == self.fits(c as int, h as int, w as int),
    {
        if c == 0 || !self.aspp1.is_fit(c, h, w) {
            return false;
        }
        let gap = self.gap_conv_w.len() / c;
        let branches = match self.branches_planes(c, h, w) {
            None => {
                return false;
            },
            Some(n) => n,
        };
        if !conv1x1_ok(c, 1, 1, self.gap_conv_w.len(), gap, c, None) || !self.gap_bn.is_fit(gap)
            || !resize_ok(gap, 1, 1, h, w) {
            return false;
        }
        let all = match self.aspp1.conv.oc.checked_add(branches) {
            None => {
                return false;
            },
            Some(a) => match a.checked_add(gap) {
                None => {
                    return false;
                },
                Some(n) => n,
            },
        };
        dims_ok(all, h, w) && conv1x1_ok(all, h, w, self.conv1_w.len(), self.oc, all, None)
            && self.bn1.is_fit(self.oc)
    }
}

impl<T: Scalar> BasicDecBlk<T> {
    /// Whether the block is defined on tensors of these dimensions.
    pub fn is_fit(&self, c: usize, h: usize, w: usize) -> (r: bool)
        ensures
            r == self.fits(c as int, h as int, w as int),
    {
        conv_kxk_ok(
            c,
            h,
            w,
            self.conv_in_w.len(),
            self.ic_mid,
            self.ic,
            3,
            Some(self.conv_in_b.len()),
        ) && self.bn_in.is_fit(self.ic_mid) && self.aspp.is_fit(self.ic_mid, h, w) && conv_kxk_ok(
            self.aspp.oc,
            h,
            w,
            self.conv_out_w.len(),
            self.oc,
            self.ic_mid,
            3,
            Some(self.conv_out_b.len()),
        ) && self.bn_out.is_fit(self.oc)
    }
}

impl<T: Scalar> SimpleConvs<T> {
    /// Whether the convolutions are defined on tensors of these dimensions.
    pub fn is_fit(&self, c: usize, h: usize, w: usize) -> (r: bool)
        ensures
            r == self.fits(c as int, h as int, w as int),
    {
        conv_kxk_ok(c, h, w, self.c1w.len(), 64, self.ic, 3, Some(self.c1b.len())) && conv_kxk_ok(
            64,
            h,
            w,
            self.cow.len(),
            self.oc,
            64,
            3,
            Some(self.cob.len()),
        )
    }
}

impl<T: Scalar> GdtConv<T> {
    /// Whether attention is defined on tensors of these dimensions.
    pub fn is_fit(&self, c: usize, h: usize, w: usize) -> (r: bool)
        ensures
            r == self.fits(c as int, h as int, w as int),
    {
        conv_kxk_ok(c, h, w, self.w.len(), 16, self.ic, 3, Some(self.b.len())) && self.bn.is_fit(
            16,
        ) && conv1x1_ok(16, h, w, self.attn_w.len(), 1, 16, Some(self.attn_b.len()))
    }
}

impl<T: Scalar> Rmbg<T> {
    fn block_is_fit(
        &self,
        xc: usize,
        xh: usize,
        xw: usize,
        k: usize,
        c: usize,
        h: usize,
        w: usize,
    ) -> (r: bool)
        requires
            self.decoder.complete(),
            k < 4,
        ensures
            r == self.block_fits(
                xc as int,
                xh as int,
                xw as int,
                k as int,
                c as int,
                h as int,
                w as int,
            ),
    {
        reveal(Rmbg::block_fits);
        let ipt = &self.decoder.ipt[k + 1];
        let tiles = match tiles_of(xc, xh, xw, h, w) {
            None => {
                return false;
            },
            Some(n) => n,
        };
        if !ipt.is_fit(tiles, h, w) {
            return false;
        }
        match c.checked_add(ipt.oc) {
            None => false,
            Some(all) => dims_ok(all, h, w) && self.decoder.blocks[k].is_fit(all, h, w),
        }
    }

    fn scale_is_fit(
        &self,
        xc: usize,
        xh: usize,
        xw: usize,
        k: usize,
        c: usize,
        wlen: usize,
        blen: usize,
    ) -> (r: bool)
        requires
            self.complete(),
            1 <= k < 4,
        ensures
            r == self.scale_fits(
                xc as int,
                xh as int,
                xw as int,
                k as int,
                c as int,
                wlen as int,
                blen as int,
            ),
    {
        reveal(Rmbg::scale_fits);
        reveal(Rmbg::prediction_fits);
        reveal(Rmbg::pass_fits);
        let h = self.size_of_stage(xh, k);
        let w = self.size_of_stage(xw, k);
        let lh = self.size_of_stage(xh, k - 1);
        let lw = self.size_of_stage(xw, k - 1);
        if !self.block_is_fit(xc, xh, xw, k, c, h, w) {
            return false;
        }
        let pc = self.decoder.blocks[k].oc;
        let n = self.decoder.ms[k - 1].0.len();
        if !conv1x1_ok(pc, h, w, n, 1, n, Some(self.decoder.ms[k - 1].1.len())) {
            return false;
        }
        let lc: usize = if k == 1 {
            384
        } else if k == 2 {
            768
        } else {
            1536
        };
        if !self.decoder.gdt[k - 1].is_fit(pc, h, w) || !resize_ok(pc, h, w, lh, lw)
            || !conv1x1_ok(lc, lh, lw, wlen, lc, lc, Some(blen)) {
            return false;
        }
        pc * (lh * lw) == lc * (lh * lw)
    }

    fn end_is_fit(&self, xc: usize, xh: usize, xw: usize) -> (r: bool)
        requires
            self.complete(),
        ensures
            r == self.end_fits(xc as int, xh as int, xw as int),
    {
        reveal(Rmbg::end_fits);
        let h = self.size_of_stage(xh, 0);
        let w = self.size_of_stage(xw, 0);
        let c = self.decoder.blocks[0].oc;
        if !self.block_is_fit(xc, xh, xw, 0, self.decoder.blocks[1].oc, h, w) || !resize_ok(
            c,
            h,
            w,
            xh,
            xw,
        ) {
            return false;
        }
        let ipt = &self.decoder.ipt[0];
        let tiles = match tiles_of(xc, xh, xw, xh, xw) {
            None => {
                return false;
            },
            Some(n) => n,
        };
        if !ipt.is_fit(tiles, xh, xw) {
            return false;
        }
        match c.checked_add(ipt.oc) {
            None => false,
            Some(all) => dims_ok(all, xh, xw) && conv1x1_ok(
                all,
                xh,
                xw,
                self.decoder.conv_out1_w.len(),
                1,
                all,
                Some(self.decoder.conv_out1_b.len()),
            ),
        }
    }

    /// Whether the decoder is defined on tensors of these dimensions.
    pub fn decoder_is_fit(&self, c: usize, h: usize, w: usize) -> (r: bool)
        requires
            self.complete(),
        ensures
            r == self.decoder_fits(c as int, h as int, w as int),
    {
        reveal(Rmbg::decoder_fits);
        let d = &self.decoder;
        self.squeeze.is_fit(5760, self.size_of_stage(h, 3), self.size_of_stage(w, 3))
            && self.scale_is_fit(c, h, w, 3, self.squeeze.oc, d.lat4.len(), d.lat4b.len())
            && self.scale_is_fit(c, h, w, 2, d.blocks[3].oc, d.lat3.len(), d.lat3b.len())
            && self.scale_is_fit(c, h, w, 1, d.blocks[2].oc, d.lat2.len(), d.lat2b.len())
            && self.end_is_fit(c, h, w)
    }

    /// Whether the network is defined on tensors of these dimensions.
    pub fn is_fit(&self, c: usize, h: usize, w: usize) -> (r: bool)
        ensures
            r == self.fits(c as int, h as int, w as int),
    {
        if !self.encoder_is_fit(c, h, w) {
            return false;
        }
        proof {
            reveal(Rmbg::encoder_fits);
            reveal(Rmbg::backbone_fits);
        }
        self.decoder_is_fit(c, h, w)
    }
}

} // verus!
