//! Planning the network: the launches that compute its parts.

use crate::cuda::{
    dt_plan, dump_plan, grid_for, grid_of, keeps, launch_over_plan, launch_plan, made, no_tensor,
    provided, Arg, CudaModel, DTensor, Kernel, Mark, Plan, Shape, DW,
};
use crate::cuda_ops::{
    add_inplace_plan, layernorm_plan, linear_plan, unary_plan, window_from_padded_plan,
    window_to_padded_plan,
};
use crate::dump::{Dump, Wish};
use crate::linear::LN_EPS;
use crate::swin::pad_up;
use crate::windows::WINDOW;
use crate::words::joined;
use vstd::prelude::*;

verus! {

broadcast use crate::cuda_ops::group_broken_ops;

/// A linear map on the device.
#[derive(Debug)]
pub struct CudaLinear {
    pub w: DW,
    pub b: Option<DW>,
}

/// A layer norm on the device.
#[derive(Debug)]
pub struct CudaLayerNorm {
    pub w: DW,
    pub b: DW,
}

/// A batch norm on the device, as a scale and a shift of each channel.
#[derive(Debug)]
pub struct CudaBn {
    pub scale: DW,
    pub shift: DW,
}

/// Two linear maps with an error unit in between, on the device.
#[derive(Debug)]
pub struct CudaMlp {
    pub fc1: CudaLinear,
    pub fc2: CudaLinear,
}

/// Attention within windows, on the device.
#[derive(Debug)]
pub struct CudaAttn {
    pub qkv: CudaLinear,
    pub proj: CudaLinear,
    pub bias_table: DW,
    pub index: DW,
    pub heads: usize,
    pub dim: usize,
}

/// What sets a block of a stage apart: by how much it rolls, and the width of a head.
#[derive(Clone, Copy, PartialEq, Eq, Debug, Structural)]
pub struct CudaSwinBlock {
    pub shift: usize,
    pub hd: usize,
}

impl CudaLinear {
    /// The buffer of the bias.
    pub open spec fn bias(&self) -> Option<usize> {
        match self.b {
            Some(d) => d.buf,
            None => None,
        }
    }

    /// The map of `rows` rows.
    #[verifier::opaque]
    pub open spec fn plan(&self, p: Plan, x: DTensor, rows: usize) -> (Plan, DTensor) {
        linear_plan(p, x, self.w@, self.bias(), rows)
    }

    /// The map of `rows` rows.
    pub fn apply(&self, m: &mut CudaModel, x: &DTensor, rows: usize) -> (r: DTensor)
        ensures
            (final(m)@, r) == self.plan(old(m)@, *x, rows),
            final(m).weights == old(m).weights,
    {
        proof {
            reveal(CudaLinear::plan);
        }
        match &self.b {
            Some(b) => m.linear(x, &self.w, Some(b), rows),
            None => m.linear(x, &self.w, None, rows),
        }
    }
}

impl CudaLayerNorm {
    /// The norm of `rows` rows.
    #[verifier::opaque]
    pub open spec fn plan(&self, p: Plan, x: DTensor, rows: usize) -> (Plan, DTensor) {
        layernorm_plan(
            provided(p, self.w.shape@.len() >= 1),
            DTensor { c: self.w.shape@[0], h: 1, w: rows, buf: x.buf },
            self.w@,
            self.b@,
            LN_EPS,
        )
    }

    /// The norm of `rows` rows.
    pub fn apply(&self, m: &mut CudaModel, x: &DTensor, rows: usize) -> (r: DTensor)
        ensures
            (final(m)@, r) == self.plan(old(m)@, *x, rows),
            final(m).weights == old(m).weights,
    {
        proof {
            reveal(CudaLayerNorm::plan);
        }
        if self.w.shape.len() < 1 {
            m.must(false);
            return m.done(*x);
        }
        let v = DTensor { c: self.w.shape[0], h: 1, w: rows, buf: x.buf };
        m.layernorm(&v, &self.w, &self.b, LN_EPS)
    }
}

impl CudaMlp {
    /// The first map, the error unit, the second map.
    #[verifier::opaque]
    pub open spec fn plan(&self, p: Plan, x: DTensor, rows: usize) -> (Plan, DTensor) {
        let (p, h) = self.fc1.plan(p, x, rows);
        let (p, h) = unary_plan(p, Kernel::GeluErf, h);
        self.fc2.plan(p, h, rows)
    }

    /// The first map, the error unit, the second map.
    pub fn apply(&self, m: &mut CudaModel, x: &DTensor, rows: usize) -> (r: DTensor)
        ensures
            (final(m)@, r) == self.plan(old(m)@, *x, rows),
            final(m).weights == old(m).weights,
    {
        proof {
            broadcast use group_broken_graph;

            reveal(CudaMlp::plan);
        }
        let h = self.fc1.apply(m, x, rows);
        let h = m.gelu(&h);
        self.fc2.apply(m, &h, rows)
    }
}

// ---- window attention -----------------------------------------------------------------

/// The queries, keys and values of `rows` rows, window by window and head by head.
#[verifier::opaque]
pub open spec fn repack_plan(
    p: Plan,
    qkv: DTensor,
    rows: usize,
    dim: usize,
    heads: usize,
    n_win: usize,
) -> (Plan, DTensor) {
    let n = (rows / n_win) as int;
    let hd = (dim / heads) as int;
    let (p, packed) = dt_plan(
        provided(p, 3 * (heads * n) <= usize::MAX),
        3 * (heads * n),
        n_win as int,
        hd,
    );
    let r = launch_over_plan(
        provided(p, 3 * (dim * rows) <= usize::MAX),
        Kernel::RepackAttn,
        3 * (dim * rows),
        seq![
            Arg::Ptr(qkv.buf),
            Arg::Ptr(packed.buf),
            Arg::Int(rows),
            Arg::Int(dim),
            Arg::Int(heads),
            Arg::Int(hd as usize),
            Arg::Int(n as usize),
        ],
    );
    (r, made(r, packed))
}

/// The scores of all pairs of a window, with bias and mask, and their softmax in place.
#[verifier::opaque]
pub open spec fn scores_plan(
    p: Plan,
    attn: &CudaAttn,
    packed: DTensor,
    rows: usize,
    heads: usize,
    n_win: usize,
    mask: Option<usize>,
) -> (Plan, DTensor) {
    let n = (rows / n_win) as int;
    let hd = (attn.dim / heads) as int;
    let (p, scores) = dt_plan(
        provided(p, n_win * heads <= usize::MAX),
        n,
        n_win * heads,
        n,
    );
    let p = launch_plan(
        provided(p, n * n <= usize::MAX && heads * (n * n) + 255 <= usize::MAX),
        Kernel::AttnScores,
        Shape {
            grid: (grid_of(heads * (n * n)), n_win as u32, 1),
            block: (256, 1, 1),
            shared: 0,
        },
        seq![
            Arg::Ptr(packed.buf),
            Arg::Ptr(attn.bias_table.buf),
            Arg::Ptr(attn.index.buf),
            Arg::Ptr(mask),
            Arg::Ptr(scores.buf),
            Arg::Int(heads),
            Arg::Int(hd as usize),
            Arg::Int(n as usize),
            Arg::InverseRoot(hd as usize),
        ],
    );
    let r = launch_plan(
        provided(p, n_win * heads * n <= usize::MAX),
        Kernel::SoftmaxRows,
        Shape { grid: ((n_win * heads * n) as u32, 1, 1), block: (256, 1, 1), shared: 1024 },
        seq![Arg::Ptr(scores.buf), Arg::Int(n as usize), Arg::Int(n as usize)],
    );
    (r, made(r, scores))
}

/// The values of each window, summed by their scores.
#[verifier::opaque]
pub open spec fn weigh_plan(
    p: Plan,
    scores: DTensor,
    packed: DTensor,
    rows: usize,
    dim: usize,
    heads: usize,
    n_win: usize,
) -> (Plan, DTensor) {
    let n = (rows / n_win) as int;
    let hd = (dim / heads) as int;
    let (p, out) = dt_plan(p, dim as int, 1, rows as int);
    let r = launch_over_plan(
        provided(p, rows * dim <= usize::MAX),
        Kernel::AttnApply,
        rows * dim,
        seq![
            Arg::Ptr(scores.buf),
            Arg::Ptr(packed.buf),
            Arg::Ptr(out.buf),
            Arg::Int(heads),
            Arg::Int(dim),
            Arg::Int(hd as usize),
            Arg::Int(n as usize),
            Arg::Int(rows),
        ],
    );
    (r, made(r, out))
}

/// Attention within `n_win` windows that have `rows` rows together.
#[verifier::opaque]
pub open spec fn window_attention_plan(
    p: Plan,
    attn: &CudaAttn,
    x: DTensor,
    rows: usize,
    heads: usize,
    n_win: usize,
    mask: Option<usize>,
) -> (Plan, DTensor) {
    let p = provided(p, n_win > 0 && heads > 0);
    let (p, qkv) = attn.qkv.plan(p, x, rows);
    let (p, packed) = repack_plan(p, qkv, rows, attn.dim, heads, n_win);
    let (p, scores) = scores_plan(p, attn, packed, rows, heads, n_win, mask);
    let (p, out) = weigh_plan(p, scores, packed, rows, attn.dim, heads, n_win);
    attn.proj.plan(p, out, rows)
}

impl CudaModel {
    fn repack(
        &mut self,
        qkv: &DTensor,
        rows: usize,
        dim: usize,
        heads: usize,
        n_win: usize,
    ) -> (r: DTensor)
        requires
            n_win > 0,
            heads > 0,
        ensures
            (final(self)@, r) == repack_plan(old(self)@, *qkv, rows, dim, heads, n_win),
            final(self).weights == old(self).weights,
    {
        proof {
            reveal(repack_plan);
        }
        let n = rows / n_win;
        let hd = dim / heads;
        let hn = self.times(heads, n);
        let c = self.times(3, hn);
        let packed = self.dt(c, n_win, hd);
        let dr = self.times(dim, rows);
        let all = self.times(3, dr);
        self.launch_over(
            Kernel::RepackAttn,
            all,
            vec![
                Arg::Ptr(qkv.buf),
                Arg::Ptr(packed.buf),
                Arg::Int(rows),
                Arg::Int(dim),
                Arg::Int(heads),
                Arg::Int(hd),
                Arg::Int(n),
            ],
        );
        self.done(packed)
    }

    fn scores(
        &mut self,
        attn: &CudaAttn,
        packed: &DTensor,
        rows: usize,
        heads: usize,
        n_win: usize,
        mask: Option<usize>,
    ) -> (r: DTensor)
        requires
            n_win > 0,
            heads > 0,
        ensures
            (final(self)@, r) == scores_plan(
                old(self)@,
                attn,
                *packed,
                rows,
                heads,
                n_win,
                mask,
            ),
            final(self).weights == old(self).weights,
    {
        proof {
            reveal(scores_plan);
        }
        let n = rows / n_win;
        let hd = attn.dim / heads;
        let wh = self.times(n_win, heads);
        let scores = self.dt(n, wh, n);
        let nn = self.times(n, n);
        let pairs = self.times(heads, nn);
        self.must(pairs <= usize::MAX - 255);
        let grid = if pairs <= usize::MAX - 255 { grid_for(pairs) } else { 0 };
        self.launch(
            Kernel::AttnScores,
            Shape { grid: (grid, n_win as u32, 1), block: (256, 1, 1), shared: 0 },
            vec![
                Arg::Ptr(packed.buf),
                Arg::Ptr(attn.bias_table.buf),
                Arg::Ptr(attn.index.buf),
                Arg::Ptr(mask),
                Arg::Ptr(scores.buf),
                Arg::Int(heads),
                Arg::Int(hd),
                Arg::Int(n),
                Arg::InverseRoot(hd),
            ],
        );
        let row_blocks = self.times(wh, n);
        self.launch(
            Kernel::SoftmaxRows,
            Shape { grid: (row_blocks as u32, 1, 1), block: (256, 1, 1), shared: 1024 },
            vec![Arg::Ptr(scores.buf), Arg::Int(n), Arg::Int(n)],
        );
        self.done(scores)
    }

    fn weigh(
        &mut self,
        scores: &DTensor,
        packed: &DTensor,
        rows: usize,
        dim: usize,
        heads: usize,
        n_win: usize,
    ) -> (r: DTensor)
        requires
            n_win > 0,
            heads > 0,
        ensures
            (final(self)@, r) == weigh_plan(
                old(self)@,
                *scores,
                *packed,
                rows,
                dim,
                heads,
                n_win,
            ),
            final(self).weights == old(self).weights,
    {
        proof {
            reveal(weigh_plan);
        }
        let out = self.dt(dim, 1, rows);
        let all = self.times(rows, dim);
        self.launch_over(
            Kernel::AttnApply,
            all,
            vec![
                Arg::Ptr(scores.buf),
                Arg::Ptr(packed.buf),
                Arg::Ptr(out.buf),
                Arg::Int(heads),
                Arg::Int(dim),
                Arg::Int(dim / heads),
                Arg::Int(rows / n_win),
                Arg::Int(rows),
            ],
        );
        self.done(out)
    }

    /// Attention within `n_win` windows that have `rows` rows together.
    pub fn window_attention(
        &mut self,
        attn: &CudaAttn,
        x: &DTensor,
        rows: usize,
        heads: usize,
        n_win: usize,
        mask: Option<usize>,
    ) -> (r: DTensor)
        ensures
            (final(self)@, r) == window_attention_plan(
                old(self)@,
                attn,
                *x,
                rows,
                heads,
                n_win,
                mask,
            ),
            final(self).weights == old(self).weights,
    {
        proof {
            broadcast use group_broken_graph;

            reveal(window_attention_plan);
        }
        if n_win == 0 || heads == 0 {
            self.must(false);
            return self.done(*x);
        }
        let qkv = attn.qkv.apply(self, x, rows);
        let packed = self.repack(&qkv, rows, attn.dim, heads, n_win);
        let scores = self.scores(attn, &packed, rows, heads, n_win, mask);
        let out = self.weigh(&scores, &packed, rows, attn.dim, heads, n_win);
        attn.proj.apply(self, &out, rows)
    }
}

// ---- a block --------------------------------------------------------------------------

/// The tokens of an `h` by `w` grid on an `hp` by `wp` grid, zero beyond the first.
#[verifier::opaque]
pub open spec fn pad_plan(
    p: Plan,
    y: DTensor,
    c: usize,
    h: usize,
    w: usize,
    hp: usize,
    wp: usize,
) -> (Plan, DTensor) {
    let (p, dst) = dt_plan(provided(p, hp * wp <= usize::MAX), c as int, 1, hp * wp);
    let r = launch_over_plan(
        p,
        Kernel::PadTokens,
        dst.size(),
        seq![
            Arg::Ptr(y.buf),
            Arg::Ptr(dst.buf),
            Arg::Int(h),
            Arg::Int(w),
            Arg::Int(hp),
            Arg::Int(wp),
            Arg::Int(c),
        ],
    );
    (r, made(r, dst))
}

/// The tokens of a grid, rolled.
#[verifier::opaque]
pub open spec fn roll_plan(
    p: Plan,
    x: DTensor,
    c: usize,
    hp: usize,
    wp: usize,
    shift: usize,
) -> (Plan, DTensor) {
    let (p, dst) = dt_plan(provided(p, hp * wp <= usize::MAX), c as int, 1, hp * wp);
    let r = launch_over_plan(
        p,
        Kernel::RollTokens,
        dst.size(),
        seq![
            Arg::Ptr(x.buf),
            Arg::Ptr(dst.buf),
            Arg::Int(hp),
            Arg::Int(wp),
            Arg::Int(shift),
            Arg::Int(c),
        ],
    );
    (r, made(r, dst))
}

/// The sum of tokens and the corner of a padded grid.
#[verifier::opaque]
pub open spec fn crop_plan(
    p: Plan,
    x: DTensor,
    y: DTensor,
    h: usize,
    w: usize,
    hp: usize,
    wp: usize,
) -> (Plan, DTensor) {
    let (p, out) = dt_plan(p, x.c as int, 1, x.w as int);
    let r = launch_over_plan(
        p,
        Kernel::AddCropTokens,
        out.size(),
        seq![
            Arg::Ptr(x.buf),
            Arg::Ptr(y.buf),
            Arg::Ptr(out.buf),
            Arg::Int(h),
            Arg::Int(w),
            Arg::Int(wp),
            Arg::Int(hp),
            Arg::Int(x.c),
        ],
    );
    (r, made(r, out))
}

/// By how much a grid of `hp` rows and `wp` columns that was rolled by `shift` is rolled to go
/// back. Rows and columns are rolled by the same number, so that it takes both round.
pub open spec fn back(hp: usize, wp: usize, shift: usize) -> usize {
    if wp == 0 || hp % wp == 0 {
        (hp - shift) as usize
    } else {
        (hp * wp - shift) as usize
    }
}

proof fn lemma_round(n: int, s: int, t: int, y: int)
    requires
        0 <= y < n,
        (s + t) % n == 0,
    ensures
        ((y + s) % n + t) % n == y,
{
    vstd::arithmetic::div_mod::lemma_add_mod_noop(y + s, t, n);
    vstd::arithmetic::div_mod::lemma_mod_twice(y + s, n);
    vstd::arithmetic::div_mod::lemma_add_mod_noop((y + s) % n, t, n);
    vstd::arithmetic::div_mod::lemma_add_mod_noop(y, s + t, n);
    vstd::arithmetic::div_mod::lemma_small_mod(y as nat, n as nat);
    assert((y + s) + t == y + (s + t));
}

/// The two rolls of a grid together take both rows and columns round.
pub proof fn lemma_back_round(hp: usize, wp: usize, shift: usize)
    requires
        0 < hp,
        0 < wp,
        shift <= hp,
        hp * wp <= usize::MAX,
    ensures
        (shift + back(hp, wp, shift)) % hp as int == 0,
        (shift + back(hp, wp, shift)) % wp as int == 0,
{
    let (a, b) = (hp as int, wp as int);
    assert(a <= a * b) by (nonlinear_arith)
        requires
            0 < a,
            0 < b,
    ;
    vstd::arithmetic::div_mod::lemma_mod_self_0(a);
    vstd::arithmetic::div_mod::lemma_mod_multiples_basic(b, a);
    vstd::arithmetic::div_mod::lemma_mod_multiples_basic(a, b);
    assert(b * a == a * b) by (nonlinear_arith);
}

/// Going on by `back` after having gone by `shift` leads to where one was, on rows and columns
/// alike, whatever their numbers.
pub proof fn lemma_back(hp: usize, wp: usize, shift: usize, y: int, x: int)
    requires
        shift <= hp,
        hp * wp <= usize::MAX,
        0 <= y < hp,
        0 <= x < wp,
    ensures
        ((y + shift) % hp as int + back(hp, wp, shift)) % hp as int == y,
        ((x + shift) % wp as int + back(hp, wp, shift)) % wp as int == x,
{
    lemma_back_round(hp, wp, shift);
    lemma_round(hp as int, shift as int, back(hp, wp, shift) as int, y);
    lemma_round(wp as int, shift as int, back(hp, wp, shift) as int, x);
}

/// What is noted of a block: to whom, and under which name.
pub open spec fn noted(dbg: Option<(&Dump, &str)>) -> Option<(Wish, Seq<char>)> {
    match dbg {
        Some((d, n)) => Some((d@, n@)),
        None => None,
    }
}

/// A tensor of a block that is noted.
#[verifier::opaque]
pub open spec fn note_plan(
    p: Plan,
    dbg: Option<(Wish, Seq<char>)>,
    part: Seq<char>,
    t: DTensor,
) -> Plan {
    match dbg {
        Some((d, n)) => dump_plan(p, d, n + part, t),
        None => p,
    }
}

/// The tokens of a block up to its windows: normed, padded, rolled.
#[verifier::opaque]
pub open spec fn entered_plan(
    p: Plan,
    shift: usize,
    ln1: &CudaLayerNorm,
    x: DTensor,
    h: usize,
    w: usize,
) -> (Plan, DTensor, DTensor) {
    let hp = pad_up(h as int);
    let wp = pad_up(w as int);
    let (p, y) = ln1.plan(p, x, x.w);
    let (p, padded) = pad_plan(p, y, x.c, h, w, hp as usize, wp as usize);
    if shift > 0 {
        let (p, s) = roll_plan(p, padded, x.c, hp as usize, wp as usize, shift);
        (p, y, s)
    } else {
        (p, y, padded)
    }
}

/// The attention of a block, back on the grid.
#[verifier::opaque]
pub open spec fn attended_plan(
    p: Plan,
    attn: &CudaAttn,
    y: DTensor,
    shifted: DTensor,
    c: usize,
    hp: usize,
    wp: usize,
    mask: Option<usize>,
    dbg: Option<(Wish, Seq<char>)>,
) -> (Plan, DTensor) {
    let n_win = (hp / 12) * (wp / 12);
    let (p, wins) = dt_plan(
        provided(p, n_win <= usize::MAX && n_win * 144 <= usize::MAX),
        c as int,
        1,
        n_win * 144,
    );
    let p = window_from_padded_plan(p, shifted, wins, hp, wp, 12);
    let (p, out) = window_attention_plan(
        p,
        attn,
        wins,
        (n_win * 144) as usize,
        attn.heads,
        n_win as usize,
        mask,
    );
    let p = note_plan(p, dbg, "_norm1"@, y);
    let p = note_plan(p, dbg, "_pad"@, shifted);
    let p = note_plan(p, dbg, "_wins"@, wins);
    let p = note_plan(p, dbg, "_attnout"@, out);
    let (p, merged) = dt_plan(provided(p, hp * wp <= usize::MAX), c as int, 1, hp * wp);
    let p = window_to_padded_plan(p, out, merged, hp, wp, 12);
    let p = note_plan(p, dbg, "_merged"@, merged);
    (p, made(p, merged))
}

/// A block: attention within windows and a perceptron, each added to what goes in.
#[verifier::opaque]
pub open spec fn swin_block_plan(
    p: Plan,
    blk: CudaSwinBlock,
    attn: &CudaAttn,
    ln1: &CudaLayerNorm,
    ln2: &CudaLayerNorm,
    mlp: &CudaMlp,
    x: DTensor,
    h: usize,
    w: usize,
    mask: Option<usize>,
    dbg: Option<(Wish, Seq<char>)>,
) -> (Plan, DTensor) {
    let hp = pad_up(h as int) as usize;
    let wp = pad_up(w as int) as usize;
    let p = provided(p, pad_up(h as int) <= usize::MAX && pad_up(w as int) <= usize::MAX);
    let (p, y, shifted) = entered_plan(p, blk.shift, ln1, x, h, w);
    let (p, merged) = attended_plan(p, attn, y, shifted, x.c, hp, wp, mask, dbg);
    let (p, unshifted) = if blk.shift > 0 {
        roll_plan(
            provided(p, hp > 0 && blk.shift <= hp && hp * wp <= usize::MAX),
            merged,
            x.c,
            hp,
            wp,
            back(hp, wp, blk.shift),
        )
    } else {
        (p, merged)
    };
    let (p, out) = crop_plan(p, x, unshifted, h, w, hp, wp);
    let (p, z) = ln2.plan(p, out, x.w);
    let (p, mm) = mlp.plan(p, z, x.w);
    add_inplace_plan(p, out, mm)
}

impl CudaModel {
    fn pad(
        &mut self,
        y: &DTensor,
        c: usize,
        h: usize,
        w: usize,
        hp: usize,
        wp: usize,
    ) -> (r: DTensor)
        ensures
            (final(self)@, r) == pad_plan(old(self)@, *y, c, h, w, hp, wp),
            final(self).weights == old(self).weights,
    {
        proof {
            reveal(pad_plan);
        }
        let rows = self.times(hp, wp);
        let dst = self.dt(c, 1, rows);
        let n = self.elements(&dst);
        self.launch_over(
            Kernel::PadTokens,
            n,
            vec![
                Arg::Ptr(y.buf),
                Arg::Ptr(dst.buf),
                Arg::Int(h),
                Arg::Int(w),
                Arg::Int(hp),
                Arg::Int(wp),
                Arg::Int(c),
            ],
        );
        self.done(dst)
    }

    fn roll(&mut self, x: &DTensor, c: usize, hp: usize, wp: usize, shift: usize) -> (r: DTensor)
        ensures
            (final(self)@, r) == roll_plan(old(self)@, *x, c, hp, wp, shift),
            final(self).weights == old(self).weights,
    {
        proof {
            reveal(roll_plan);
        }
        let rows = self.times(hp, wp);
        let dst = self.dt(c, 1, rows);
        let n = self.elements(&dst);
        self.launch_over(
            Kernel::RollTokens,
            n,
            vec![
                Arg::Ptr(x.buf),
                Arg::Ptr(dst.buf),
                Arg::Int(hp),
                Arg::Int(wp),
                Arg::Int(shift),
                Arg::Int(c),
            ],
        );
        self.done(dst)
    }

    fn way_back(&self, hp: usize, wp: usize, both: usize, shift: usize) -> (r: usize)
        requires
            self@ is Going ==> 0 < hp && shift <= hp && both == hp * wp,
        ensures
            self@ is Going ==> r == back(hp, wp, shift),
    {
        if self.broken {
            return 0;
        }
        proof {
            if 0 < wp {
                assert(hp <= hp * wp) by (nonlinear_arith)
                    requires
                        0 < wp,
                        0 <= hp,
                ;
            }
        }
        if wp == 0 || hp % wp == 0 {
            hp - shift
        } else {
            both - shift
        }
    }

    fn crop(
        &mut self,
        x: &DTensor,
        y: &DTensor,
        h: usize,
        w: usize,
        hp: usize,
        wp: usize,
    ) -> (r: DTensor)
        ensures
            (final(self)@, r) == crop_plan(old(self)@, *x, *y, h, w, hp, wp),
            final(self).weights == old(self).weights,
    {
        proof {
            reveal(crop_plan);
        }
        let out = self.dt(x.c, 1, x.w);
        let n = self.elements(&out);
        self.launch_over(
            Kernel::AddCropTokens,
            n,
            vec![
                Arg::Ptr(x.buf),
                Arg::Ptr(y.buf),
                Arg::Ptr(out.buf),
                Arg::Int(h),
                Arg::Int(w),
                Arg::Int(wp),
                Arg::Int(hp),
                Arg::Int(x.c),
            ],
        );
        self.done(out)
    }

    fn note(&mut self, dbg: Option<(&Dump, &str)>, part: &str, t: &DTensor)
        ensures
            final(self)@ == note_plan(old(self)@, noted(dbg), part@, *t),
            final(self).weights == old(self).weights,
    {
        proof {
            reveal(note_plan);
        }
        match dbg {
            Some((d, n)) => {
                let name = joined(n, part);
                self.dump_named(d, name.as_str(), t);
            },
            None => {},
        }
    }

    fn entered(
        &mut self,
        shift: usize,
        ln1: &CudaLayerNorm,
        x: &DTensor,
        h: usize,
        w: usize,
        hp: usize,
        wp: usize,
    ) -> (r: (DTensor, DTensor))
        requires
            hp == pad_up(h as int),
            wp == pad_up(w as int),
        ensures
            (final(self)@, r.0, r.1) == entered_plan(old(self)@, shift, ln1, *x, h, w),
            final(self).weights == old(self).weights,
    {
        proof {
            broadcast use group_broken_graph;

            reveal(entered_plan);
        }
        let y = ln1.apply(self, x, x.w);
        let padded = self.pad(&y, x.c, h, w, hp, wp);
        if shift > 0 {
            let s = self.roll(&padded, x.c, hp, wp, shift);
            (y, s)
        } else {
            (y, padded)
        }
    }

    fn attended(
        &mut self,
        attn: &CudaAttn,
        y: &DTensor,
        shifted: &DTensor,
        c: usize,
        hp: usize,
        wp: usize,
        mask: Option<usize>,
        dbg: Option<(&Dump, &str)>,
    ) -> (r: DTensor)
        ensures
            (final(self)@, r) == attended_plan(
                old(self)@,
                attn,
                *y,
                *shifted,
                c,
                hp,
                wp,
                mask,
                noted(dbg),
            ),
            final(self).weights == old(self).weights,
    {
        proof {
            broadcast use group_broken_graph;

            reveal(attended_plan);
        }
        let n_win = self.times(hp / WINDOW, wp / WINDOW);
        let rows = self.times(n_win, WINDOW * WINDOW);
        let wins = self.dt(c, 1, rows);
        self.window_from_padded(shifted, &wins, hp, wp, WINDOW);
        let out = self.window_attention(attn, &wins, rows, attn.heads, n_win, mask);
        self.note(dbg, "_norm1", y);
        self.note(dbg, "_pad", shifted);
        self.note(dbg, "_wins", &wins);
        self.note(dbg, "_attnout", &out);
        let grid = self.times(hp, wp);
        let merged = self.dt(c, 1, grid);
        self.window_to_padded(&out, &merged, hp, wp, WINDOW);
        self.note(dbg, "_merged", &merged);
        self.done(merged)
    }

    /// A block: attention within windows and a perceptron, each added to what goes in.
    pub fn swin_block(
        &mut self,
        blk: &CudaSwinBlock,
        attn: &CudaAttn,
        ln1: &CudaLayerNorm,
        ln2: &CudaLayerNorm,
        mlp: &CudaMlp,
        x: &DTensor,
        h: usize,
        w: usize,
        mask: Option<usize>,
        dbg: Option<(&Dump, &str)>,
    ) -> (r: DTensor)
        ensures
            (final(self)@, r) == swin_block_plan(
                old(self)@,
                *blk,
                attn,
                ln1,
                ln2,
                mlp,
                *x,
                h,
                w,
                mask,
                noted(dbg),
            ),
            final(self).weights == old(self).weights,
    {
        proof {
            broadcast use group_broken_graph;

            reveal(swin_block_plan);
        }
        let pad_r = (WINDOW - w % WINDOW) % WINDOW;
        let pad_b = (WINDOW - h % WINDOW) % WINDOW;
        if h > usize::MAX - pad_b || w > usize::MAX - pad_r {
            self.must(false);
            return self.done(*x);
        }
        let hp = h + pad_b;
        let wp = w + pad_r;
        let (y, shifted) = self.entered(blk.shift, ln1, x, h, w, hp, wp);
        let merged = self.attended(attn, &y, &shifted, x.c, hp, wp, mask, dbg);
        let unshifted = if blk.shift > 0 {
            self.must(hp > 0 && blk.shift <= hp);
            let both = self.times(hp, wp);
            let back = self.way_back(hp, wp, both, blk.shift);
            self.roll(&merged, x.c, hp, wp, back)
        } else {
            merged
        };
        let out = self.crop(x, &unshifted, h, w, hp, wp);
        let z = ln2.apply(self, &out, x.w);
        let mm = mlp.apply(self, &z, x.w);
        self.add_inplace(&out, &mm)
    }
}

// ---- broken plans ---------------------------------------------------------------------

/// Nothing is added to a broken plan.
pub broadcast proof fn lemma_map_broken(l: &CudaLinear, x: DTensor, rows: usize)
    ensures
        #[trigger] l.plan(Plan::Broken, x, rows) == (Plan::Broken, no_tensor()),
{
    reveal(CudaLinear::plan);
}

/// Nothing is added to a broken plan.
pub broadcast proof fn lemma_layer_norm_broken(l: &CudaLayerNorm, x: DTensor, rows: usize)
    ensures
        #[trigger] l.plan(Plan::Broken, x, rows) == (Plan::Broken, no_tensor()),
{
    reveal(CudaLayerNorm::plan);
}

/// Nothing is added to a broken plan.
pub broadcast proof fn lemma_mlp_broken(l: &CudaMlp, x: DTensor, rows: usize)
    ensures
        #[trigger] l.plan(Plan::Broken, x, rows) == (Plan::Broken, no_tensor()),
{
    broadcast use {
        lemma_map_broken,
    };

    reveal(CudaMlp::plan);
}

/// Nothing is added to a broken plan.
pub broadcast proof fn lemma_repack_broken(
    qkv: DTensor,
    rows: usize,
    dim: usize,
    heads: usize,
    n_win: usize,
)
    ensures
        #[trigger] repack_plan(
            Plan::Broken,
            qkv,
            rows,
            dim,
            heads,
            n_win,
        ) == (Plan::Broken, no_tensor()),
{
    reveal(repack_plan);
}

/// Nothing is added to a broken plan.
pub broadcast proof fn lemma_scores_broken(
    attn: &CudaAttn,
    packed: DTensor,
    rows: usize,
    heads: usize,
    n_win: usize,
    mask: Option<usize>,
)
    ensures
        #[trigger] scores_plan(
            Plan::Broken,
            attn,
            packed,
            rows,
            heads,
            n_win,
            mask,
        ) == (Plan::Broken, no_tensor()),
{
    reveal(scores_plan);
}

/// Nothing is added to a broken plan.
pub broadcast proof fn lemma_weigh_broken(
    scores: DTensor,
    packed: DTensor,
    rows: usize,
    dim: usize,
    heads: usize,
    n_win: usize,
)
    ensures
        #[trigger] weigh_plan(
            Plan::Broken,
            scores,
            packed,
            rows,
            dim,
            heads,
            n_win,
        ) == (Plan::Broken, no_tensor()),
{
    reveal(weigh_plan);
}

/// Nothing is added to a broken plan.
pub broadcast proof fn lemma_window_attention_broken(
    attn: &CudaAttn,
    x: DTensor,
    rows: usize,
    heads: usize,
    n_win: usize,
    mask: Option<usize>,
)
    ensures
        #[trigger] window_attention_plan(
            Plan::Broken,
            attn,
            x,
            rows,
            heads,
            n_win,
            mask,
        ) == (Plan::Broken, no_tensor()),
{
    broadcast use {
        lemma_map_broken,
        lemma_repack_broken,
        lemma_scores_broken,
        lemma_weigh_broken,
    };

    reveal(window_attention_plan);
}

/// Nothing is added to a broken plan.
pub broadcast proof fn lemma_pad_broken(
    y: DTensor,
    c: usize,
    h: usize,
    w: usize,
    hp: usize,
    wp: usize,
)
    ensures
        #[trigger] pad_plan(Plan::Broken, y, c, h, w, hp, wp) == (Plan::Broken, no_tensor()),
{
    reveal(pad_plan);
}

/// Nothing is added to a broken plan.
pub broadcast proof fn lemma_roll_broken(x: DTensor, c: usize, hp: usize, wp: usize, shift: usize)
    ensures
        #[trigger] roll_plan(Plan::Broken, x, c, hp, wp, shift) == (Plan::Broken, no_tensor()),
{
    reveal(roll_plan);
}

/// Nothing is added to a broken plan.
pub broadcast proof fn lemma_crop_broken(
    x: DTensor,
    y: DTensor,
    h: usize,
    w: usize,
    hp: usize,
    wp: usize,
)
    ensures
        #[trigger] crop_plan(Plan::Broken, x, y, h, w, hp, wp) == (Plan::Broken, no_tensor()),
{
    reveal(crop_plan);
}

/// Nothing is added to a broken plan.
pub broadcast proof fn lemma_note_broken(
    dbg: Option<(Wish, Seq<char>)>,
    part: Seq<char>,
    t: DTensor,
)
    ensures
        #[trigger] note_plan(Plan::Broken, dbg, part, t) == Plan::Broken,
{
    reveal(note_plan);
}

/// Nothing is added to a broken plan.
pub broadcast proof fn lemma_entered_broken(
    shift: usize,
    ln1: &CudaLayerNorm,
    x: DTensor,
    h: usize,
    w: usize,
)
    ensures
        #[trigger] entered_plan(Plan::Broken, shift, ln1, x, h, w) == (
            Plan::Broken,
            no_tensor(),
            no_tensor(),
        ),
{
    broadcast use {
        lemma_layer_norm_broken,
        lemma_pad_broken,
        lemma_roll_broken,
    };

    reveal(entered_plan);
}

/// Nothing is added to a broken plan.
pub broadcast proof fn lemma_attended_broken(
    attn: &CudaAttn,
    y: DTensor,
    shifted: DTensor,
    c: usize,
    hp: usize,
    wp: usize,
    mask: Option<usize>,
    dbg: Option<(Wish, Seq<char>)>,
)
    ensures
        #[trigger] attended_plan(
            Plan::Broken,
            attn,
            y,
            shifted,
            c,
            hp,
            wp,
            mask,
            dbg,
        ) == (Plan::Broken, no_tensor()),
{
    broadcast use {
        lemma_window_attention_broken,
        lemma_note_broken,
    };

    reveal(attended_plan);
}

/// Nothing is added to a broken plan.
pub broadcast proof fn lemma_swin_block_broken(
    blk: CudaSwinBlock,
    attn: &CudaAttn,
    ln1: &CudaLayerNorm,
    ln2: &CudaLayerNorm,
    mlp: &CudaMlp,
    x: DTensor,
    h: usize,
    w: usize,
    mask: Option<usize>,
    dbg: Option<(Wish, Seq<char>)>,
)
    ensures
        #[trigger] swin_block_plan(
            Plan::Broken,
            blk,
            attn,
            ln1,
            ln2,
            mlp,
            x,
            h,
            w,
            mask,
            dbg,
        ) == (Plan::Broken, no_tensor()),
{
    broadcast use {
        lemma_entered_broken,
        lemma_attended_broken,
        lemma_roll_broken,
        lemma_crop_broken,
        lemma_layer_norm_broken,
        lemma_mlp_broken,
    };

    reveal(swin_block_plan);
}

/// Nothing is added to a broken plan.
pub broadcast group group_broken_graph {
    lemma_map_broken,
    lemma_layer_norm_broken,
    lemma_mlp_broken,
    lemma_repack_broken,
    lemma_scores_broken,
    lemma_weigh_broken,
    lemma_window_attention_broken,
    lemma_pad_broken,
    lemma_roll_broken,
    lemma_crop_broken,
    lemma_note_broken,
    lemma_entered_broken,
    lemma_attended_broken,
    lemma_swin_block_broken,
}

// ---- what was planned stays planned ---------------------------------------------------

/// What is said of a plan stays true with the part behind it.
pub broadcast proof fn lemma_map_keeps(
    base: Mark,
    p: Plan,
    l: &CudaLinear,
    x: DTensor,
    rows: usize,
)
    requires
        keeps(base, p),
    ensures
        #[trigger] keeps(base, l.plan(p, x, rows).0),
{
    broadcast use {crate::cuda::group_keeps, crate::cuda_ops::group_keeps_ops};

    reveal(CudaLinear::plan);
}

/// What is said of a plan stays true with the part behind it.
pub broadcast proof fn lemma_layer_norm_keeps(
    base: Mark,
    p: Plan,
    l: &CudaLayerNorm,
    x: DTensor,
    rows: usize,
)
    requires
        keeps(base, p),
    ensures
        #[trigger] keeps(base, l.plan(p, x, rows).0),
{
    broadcast use {crate::cuda::group_keeps, crate::cuda_ops::group_keeps_ops};

    reveal(CudaLayerNorm::plan);
}

/// What is said of a plan stays true with the part behind it.
pub broadcast proof fn lemma_mlp_keeps(base: Mark, p: Plan, l: &CudaMlp, x: DTensor, rows: usize)
    requires
        keeps(base, p),
    ensures
        #[trigger] keeps(base, l.plan(p, x, rows).0),
{
    broadcast use {
        crate::cuda::group_keeps,
        crate::cuda_ops::group_keeps_ops,
        lemma_map_keeps,
    };

    reveal(CudaMlp::plan);
}

/// What is said of a plan stays true with the part behind it.
pub broadcast proof fn lemma_repack_keeps(
    base: Mark,
    p: Plan,
    qkv: DTensor,
    rows: usize,
    dim: usize,
    heads: usize,
    n_win: usize,
)
    requires
        keeps(base, p),
    ensures
        #[trigger] keeps(base, repack_plan(p, qkv, rows, dim, heads, n_win).0),
{
    broadcast use {crate::cuda::group_keeps, crate::cuda_ops::group_keeps_ops};

    reveal(repack_plan);
}

/// What is said of a plan stays true with the part behind it.
pub broadcast proof fn lemma_scores_keeps(
    base: Mark,
    p: Plan,
    attn: &CudaAttn,
    packed: DTensor,
    rows: usize,
    heads: usize,
    n_win: usize,
    mask: Option<usize>,
)
    requires
        keeps(base, p),
    ensures
        #[trigger] keeps(base, scores_plan(p, attn, packed, rows, heads, n_win, mask).0),
{
    broadcast use {crate::cuda::group_keeps, crate::cuda_ops::group_keeps_ops};

    reveal(scores_plan);
}

/// What is said of a plan stays true with the part behind it.
pub broadcast proof fn lemma_weigh_keeps(
    base: Mark,
    p: Plan,
    scores: DTensor,
    packed: DTensor,
    rows: usize,
    dim: usize,
    heads: usize,
    n_win: usize,
)
    requires
        keeps(base, p),
    ensures
        #[trigger] keeps(base, weigh_plan(p, scores, packed, rows, dim, heads, n_win).0),
{
    broadcast use {crate::cuda::group_keeps, crate::cuda_ops::group_keeps_ops};

    reveal(weigh_plan);
}

/// What is said of a plan stays true with the part behind it.
pub broadcast proof fn lemma_window_attention_keeps(
    base: Mark,
    p: Plan,
    attn: &CudaAttn,
    x: DTensor,
    rows: usize,
    heads: usize,
    n_win: usize,
    mask: Option<usize>,
)
    requires
        keeps(base, p),
    ensures
        #[trigger] keeps(base, window_attention_plan(p, attn, x, rows, heads, n_win, mask).0),
{
    broadcast use {
        crate::cuda::group_keeps,
        crate::cuda_ops::group_keeps_ops,
        lemma_map_keeps,
        lemma_repack_keeps,
        lemma_scores_keeps,
        lemma_weigh_keeps,
    };

    reveal(window_attention_plan);
}

/// What is said of a plan stays true with the part behind it.
pub broadcast proof fn lemma_pad_keeps(
    base: Mark,
    p: Plan,
    y: DTensor,
    c: usize,
    h: usize,
    w: usize,
    hp: usize,
    wp: usize,
)
    requires
        keeps(base, p),
    ensures
        #[trigger] keeps(base, pad_plan(p, y, c, h, w, hp, wp).0),
{
    broadcast use {crate::cuda::group_keeps, crate::cuda_ops::group_keeps_ops};

    reveal(pad_plan);
}

/// What is said of a plan stays true with the part behind it.
pub broadcast proof fn lemma_roll_keeps(
    base: Mark,
    p: Plan,
    x: DTensor,
    c: usize,
    hp: usize,
    wp: usize,
    shift: usize,
)
    requires
        keeps(base, p),
    ensures
        #[trigger] keeps(base, roll_plan(p, x, c, hp, wp, shift).0),
{
    broadcast use {crate::cuda::group_keeps, crate::cuda_ops::group_keeps_ops};

    reveal(roll_plan);
}

/// What is said of a plan stays true with the part behind it.
pub broadcast proof fn lemma_crop_keeps(
    base: Mark,
    p: Plan,
    x: DTensor,
    y: DTensor,
    h: usize,
    w: usize,
    hp: usize,
    wp: usize,
)
    requires
        keeps(base, p),
    ensures
        #[trigger] keeps(base, crop_plan(p, x, y, h, w, hp, wp).0),
{
    broadcast use {crate::cuda::group_keeps, crate::cuda_ops::group_keeps_ops};

    reveal(crop_plan);
}

/// What is said of a plan stays true with the part behind it.
pub broadcast proof fn lemma_note_keeps(
    base: Mark,
    p: Plan,
    dbg: Option<(Wish, Seq<char>)>,
    part: Seq<char>,
    t: DTensor,
)
    requires
        keeps(base, p),
        base is After || dbg is None,
    ensures
        #[trigger] keeps(base, note_plan(p, dbg, part, t)),
{
    broadcast use {crate::cuda::group_keeps, crate::cuda_ops::group_keeps_ops};

    reveal(note_plan);
}

/// What is said of a plan stays true with the part behind it.
pub broadcast proof fn lemma_entered_keeps(
    base: Mark,
    p: Plan,
    shift: usize,
    ln1: &CudaLayerNorm,
    x: DTensor,
    h: usize,
    w: usize,
)
    requires
        keeps(base, p),
    ensures
        #[trigger] keeps(base, entered_plan(p, shift, ln1, x, h, w).0),
{
    broadcast use {
        crate::cuda::group_keeps,
        crate::cuda_ops::group_keeps_ops,
        lemma_layer_norm_keeps,
        lemma_pad_keeps,
        lemma_roll_keeps,
    };

    reveal(entered_plan);
}

/// What is said of a plan stays true with the part behind it.
pub broadcast proof fn lemma_attended_keeps(
    base: Mark,
    p: Plan,
    attn: &CudaAttn,
    y: DTensor,
    shifted: DTensor,
    c: usize,
    hp: usize,
    wp: usize,
    mask: Option<usize>,
    dbg: Option<(Wish, Seq<char>)>,
)
    requires
        keeps(base, p),
        base is After || dbg is None,
    ensures
        #[trigger] keeps(base, attended_plan(p, attn, y, shifted, c, hp, wp, mask, dbg).0),
{
    broadcast use {
        crate::cuda::group_keeps,
        crate::cuda_ops::group_keeps_ops,
        lemma_window_attention_keeps,
        lemma_note_keeps,
    };

    reveal(attended_plan);
}

/// What is said of a plan stays true with the part behind it.
pub broadcast proof fn lemma_swin_block_keeps(
    base: Mark,
    p: Plan,
    blk: CudaSwinBlock,
    attn: &CudaAttn,
    ln1: &CudaLayerNorm,
    ln2: &CudaLayerNorm,
    mlp: &CudaMlp,
    x: DTensor,
    h: usize,
    w: usize,
    mask: Option<usize>,
    dbg: Option<(Wish, Seq<char>)>,
)
    requires
        keeps(base, p),
        base is After || dbg is None,
    ensures
        #[trigger] keeps(
            base,
            swin_block_plan(p, blk, attn, ln1, ln2, mlp, x, h, w, mask, dbg).0,
        ),
{
    broadcast use {
        crate::cuda::group_keeps,
        crate::cuda_ops::group_keeps_ops,
        lemma_entered_keeps,
        lemma_attended_keeps,
        lemma_roll_keeps,
        lemma_crop_keeps,
        lemma_layer_norm_keeps,
        lemma_mlp_keeps,
    };

    reveal(swin_block_plan);
}

/// What is said of a plan stays true with the parts of a stage behind it.
pub broadcast group group_keeps_graph {
    lemma_map_keeps,
    lemma_layer_norm_keeps,
    lemma_mlp_keeps,
    lemma_repack_keeps,
    lemma_scores_keeps,
    lemma_weigh_keeps,
    lemma_window_attention_keeps,
    lemma_pad_keeps,
    lemma_roll_keeps,
    lemma_crop_keeps,
    lemma_note_keeps,
    lemma_entered_keeps,
    lemma_attended_keeps,
    lemma_swin_block_keeps,
}

} // verus!
