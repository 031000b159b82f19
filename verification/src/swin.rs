//! The blocks and stages of the Swin backbone.

use crate::attention::WindowAttention;
use crate::dump::{contains_text, dump_tokens_public, entries, texts, tokens_img, Entry, Record};
use crate::index::{lemma_flat, lemma_split};
use crate::linear::{LayerNorm, Linear, Mlp};
use crate::loading::{clear, fails_with, group_steps, Step};
use crate::mask::{build_mask, mask_spec};
use crate::parallel::par_map;
use crate::scalar::{computes, Arith, Scalar};
use crate::tensor::{copied, opt, opt_len};
use crate::weights::{Checkpoint, Weights, WeightsError};
use crate::windows::{half, half_up, move_rows, moved, Move, WINDOW};
use crate::words::{joined, number_string, number_text, numbered};
use vstd::prelude::*;
use vstd::string::StringExecFns;

verus! {

broadcast use group_steps;

/// Number of features of each stage.
pub const DIMS: [usize; 4] = [192, 384, 768, 1536];

/// Number of blocks of each stage.
pub const DEPTHS: [usize; 4] = [2, 2, 18, 2];

/// Number of heads of each stage.
pub const HEADS: [usize; 4] = [6, 12, 24, 48];

// ---- padding --------------------------------------------------------------------------

/// The first multiple of the window size that is not below `n`.
pub open spec fn pad_up(n: int) -> int {
    n + (12 - n % 12) % 12
}

/// The first multiple of the window size that is not below `n`.
pub fn padded(n: usize) -> (r: usize)
    requires
        pad_up(n as int) <= usize::MAX,
    ensures
        r == pad_up(n as int),
        r % 12 == 0,
        n <= r < n + 12,
{
    n + (WINDOW - n % WINDOW) % WINDOW
}

// ---- blocks ---------------------------------------------------------------------------

/// The features of `x` plus those of an image of `wp` columns that has the image of `w`
/// columns in its corner.
pub open spec fn with_residual<T>(
    m: Arith<T>,
    x: Seq<T>,
    u: Seq<T>,
    h: int,
    w: int,
    wp: int,
    c: int,
) -> Seq<T> {
    Seq::new(
        x.len(),
        |i: int|
            {
                let r = i / c;
                if r < h * w {
                    (m.plus)(x[i], u[((r / w) * wp + r % w) * c + i % c])
                } else {
                    x[i]
                }
            },
    )
}

/// Every element of `a` plus the element of `b` at the same place, where there is one.
pub open spec fn zip_added<T>(m: Arith<T>, a: Seq<T>, b: Seq<T>) -> Seq<T> {
    Seq::new(
        a.len(),
        |i: int|
            if i < b.len() {
                (m.plus)(a[i], b[i])
            } else {
                a[i]
            },
    )
}

fn add_residual<T: Scalar>(x: &Vec<T>, u: &Vec<T>, h: usize, w: usize, wp: usize, c: usize) -> (r:
    Vec<T>)
    requires
        0 < c,
        h * w <= usize::MAX,
        w <= wp,
        (h * wp) * c <= u@.len(),
    ensures
        r@.len() == x@.len(),
        forall|m: Arith<T>| #[trigger]
            computes(m) ==> r@ == with_residual(
                m,
                x@,
                u@,
                h as int,
                w as int,
                wp as int,
                c as int,
            ),
{
    let area = h * w;
    let n = x.len();
    let elem = |i: usize| -> (v: T)
        requires
            i < n,
        ensures
            forall|m: Arith<T>| #[trigger]
                computes(m) ==> v == with_residual(
                    m,
                    x@,
                    u@,
                    h as int,
                    w as int,
                    wp as int,
                    c as int,
                )[i as int],
        {
            let r = i / c;
            if r < area {
                proof {
                    lemma_split(r as int, h as int, w as int);
                    let (y, col) = (r as int / w as int, r as int % w as int);
                    lemma_flat(y, h as int, col, wp as int);
                    lemma_flat(y * wp + col, h * wp, i as int % c as int, c as int);
                    assert(u@.len() == u.len());
                    assert(y * wp + col <= (y * wp + col) * c) by (nonlinear_arith)
                        requires
                            0 <= y * wp + col,
                            1 <= c,
                    ;
                }
                x[i].plus(u[((r / w) * wp + r % w) * c + i % c])
            } else {
                x[i]
            }
        };
    let out = par_map(n, elem);
    assert forall|m: Arith<T>| #[trigger] computes(m) implies out@ == with_residual(
        m,
        x@,
        u@,
        h as int,
        w as int,
        wp as int,
        c as int,
    ) by {
        let want = with_residual(m, x@, u@, h as int, w as int, wp as int, c as int);
        assert forall|i: int| 0 <= i < n implies out@[i] == want[i] by {
            assert(out@[i as usize as int] == want[i]);
        }
        assert(out@ =~= want);
    }
    out
}

fn add_zip<T: Scalar>(a: &Vec<T>, b: &Vec<T>) -> (r: Vec<T>)
    ensures
        r@.len() == a@.len(),
        forall|m: Arith<T>| #[trigger] computes(m) ==> r@ == zip_added(m, a@, b@),
{
    let n = a.len();
    let elem = |i: usize| -> (v: T)
        requires
            i < n,
        ensures
            forall|m: Arith<T>| #[trigger] computes(m) ==> v == zip_added(m, a@, b@)[i as int],
        {
            if i < b.len() {
                a[i].plus(b[i])
            } else {
                a[i]
            }
        };
    let out = par_map(n, elem);
    assert forall|m: Arith<T>| #[trigger] computes(m) implies out@ == zip_added(m, a@, b@) by {
        let want = zip_added(m, a@, b@);
        assert forall|i: int| 0 <= i < n implies out@[i] == want[i] by {
            assert(out@[i as usize as int] == want[i]);
        }
        assert(out@ =~= want);
    }
    out
}

/// A block: attention within windows, on an image that may be turned round by half a
/// window, and a perceptron, each added to what goes in.
#[derive(Debug)]
pub struct SwinBlock<T> {
    pub norm1: LayerNorm<T>,
    pub attn: WindowAttention<T>,
    pub norm2: LayerNorm<T>,
    pub mlp: Mlp<T>,
    pub shift: usize,
}

impl<T: Scalar> SwinBlock<T> {
    /// The steps by which a block is loaded.
    #[verifier::opaque]
    pub open spec fn steps(prefix: Seq<char>) -> Seq<Step> {
        LayerNorm::<T>::steps(prefix + ".norm1"@) + WindowAttention::<T>::steps(prefix + ".attn"@)
            + LayerNorm::<T>::steps(prefix + ".norm2"@) + Mlp::<T>::steps(prefix + ".mlp"@)
    }

    /// The block is the one that the weights hold under this prefix.
    #[verifier::opaque]
    pub open spec fn loaded(
        self,
        w: Checkpoint,
        prefix: Seq<char>,
        dim: int,
        heads: int,
        shift: int,
    ) -> bool {
        &&& self.norm1.loaded(w, prefix + ".norm1"@)
        &&& self.attn.loaded(w, prefix + ".attn"@, dim, heads)
        &&& self.norm2.loaded(w, prefix + ".norm2"@)
        &&& self.mlp.loaded(w, prefix + ".mlp"@)
        &&& self.shift == shift
    }

    /// Loads a block.
    pub fn load(wts: &Weights, prefix: &str, dim: usize, heads: usize, shift: usize) -> (r: Result<
        SwinBlock<T>,
        WeightsError,
    >)
        requires
            wts.wf(),
            0 < heads,
        ensures
            match r {
                Ok(b) => clear(wts@, Self::steps(prefix@)) && b.loaded(
                    wts@,
                    prefix@,
                    dim as int,
                    heads as int,
                    shift as int,
                ),
                Err(e) => fails_with(wts@, Self::steps(prefix@), e@),
            },
    {
        reveal(SwinBlock::steps);
        reveal(SwinBlock::loaded);
        let norm1: LayerNorm<T> = match LayerNorm::load(wts, joined(prefix, ".norm1").as_str()) {
            Err(e) => {
                return Err(e);
            },
            Ok(l) => l,
        };
        let attn: WindowAttention<T> = match WindowAttention::load(
            wts,
            joined(prefix, ".attn").as_str(),
            dim,
            heads,
        ) {
            Err(e) => {
                return Err(e);
            },
            Ok(l) => l,
        };
        let norm2: LayerNorm<T> = match LayerNorm::load(wts, joined(prefix, ".norm2").as_str()) {
            Err(e) => {
                return Err(e);
            },
            Ok(l) => l,
        };
        let mlp: Mlp<T> = match Mlp::load(wts, joined(prefix, ".mlp").as_str()) {
            Err(e) => {
                return Err(e);
            },
            Ok(l) => l,
        };
        Ok(SwinBlock { norm1, attn, norm2, mlp, shift })
    }

    /// Number of features.
    pub open spec fn features(self) -> int {
        self.norm1.w@.len() as int
    }

    /// The windows that attention works on.
    pub open spec fn windows_in(self, m: Arith<T>, x: Seq<T>, h: usize, w: usize) -> Seq<T> {
        let c = self.features();
        let hp = pad_up(h as int) as usize;
        let wp = pad_up(w as int) as usize;
        let padded = moved(m, self.norm1.out(m, x), c, hp * wp, Move::Pad { h, w, wp });
        let turned = if self.shift > 0 {
            moved(m, padded, c, hp * wp, Move::Roll { hp, wp, by: self.shift })
        } else {
            padded
        };
        moved(m, turned, c, window_count(h, w) * 144, Move::Split { wp })
    }

    /// The image that attention makes, with its padding.
    pub open spec fn image_out(
        self,
        m: Arith<T>,
        x: Seq<T>,
        h: usize,
        w: usize,
        mask: Option<Seq<T>>,
    ) -> Seq<T> {
        let c = self.features();
        let hp = pad_up(h as int) as usize;
        let wp = pad_up(w as int) as usize;
        let attended = self.attn.out(m, self.windows_in(m, x, h, w), window_count(h, w), mask);
        let merged = moved(m, attended, c, hp * wp, Move::Merge { wp });
        if self.shift > 0 {
            moved(m, merged, c, hp * wp, Move::Unroll { hp, wp, by: self.shift })
        } else {
            merged
        }
    }

    /// What goes in plus what attention makes of it.
    pub open spec fn middle(
        self,
        m: Arith<T>,
        x: Seq<T>,
        h: usize,
        w: usize,
        mask: Option<Seq<T>>,
    ) -> Seq<T> {
        with_residual(
            m,
            x,
            self.image_out(m, x, h, w, mask),
            h as int,
            w as int,
            pad_up(w as int),
            self.features(),
        )
    }

    /// What the block makes of the features of an image of `h` by `w` positions.
    pub open spec fn out(
        self,
        m: Arith<T>,
        x: Seq<T>,
        h: usize,
        w: usize,
        mask: Option<Seq<T>>,
    ) -> Seq<T> {
        let mid = self.middle(m, x, h, w, mask);
        zip_added(m, mid, self.mlp.out(m, self.norm2.out(m, mid)))
    }

    /// The block is defined on `n` elements of an image of `h` by `w` positions.
    pub open spec fn fits(self, n: int, h: usize, w: usize, mask_len: Option<int>) -> bool {
        let c = self.features();
        let hp = pad_up(h as int);
        let wp = pad_up(w as int);
        let all = (hp * wp) * c;
        &&& self.norm1.fits()
        &&& self.norm2.fits()
        &&& hp <= usize::MAX
        &&& wp <= usize::MAX
        &&& all <= usize::MAX
        &&& (h * w) * c <= n
        &&& self.shift > 0 && 0 < all ==> self.shift <= hp && self.shift <= wp
        &&& self.attn.fits(all, window_count(h, w), mask_len)
        &&& all <= self.attn.out_len(all)
        &&& self.mlp.fits(n)
    }
}

/// Number of windows of an image of `h` by `w` positions with its padding.
pub open spec fn window_count(h: usize, w: usize) -> int {
    (pad_up(h as int) / 12) * (pad_up(w as int) / 12)
}

/// The sizes of an image with its padding, and of its windows, agree.
proof fn lemma_sizes(h: usize, w: usize, c: int)
    requires
        0 < c,
        pad_up(w as int) <= usize::MAX,
        (pad_up(h as int) * pad_up(w as int)) * c <= usize::MAX,
    ensures
        0 <= pad_up(h as int) * pad_up(w as int) <= usize::MAX,
        0 <= window_count(h, w),
        window_count(h, w) * 144 == pad_up(h as int) * pad_up(w as int),
        12 * (pad_up(h as int) / 12) * pad_up(w as int) == pad_up(h as int) * pad_up(w as int),
        h * w <= pad_up(h as int) * pad_up(w as int),
        h * pad_up(w as int) <= pad_up(h as int) * pad_up(w as int),
        0 < pad_up(h as int) * pad_up(w as int) ==> 12 * pad_up(h as int) <= usize::MAX && 12
            * pad_up(w as int) <= usize::MAX && 0 < (pad_up(h as int) * pad_up(w as int)) * c,
        (Move::Split { wp: pad_up(w as int) as usize }).makes(
            pad_up(h as int) * pad_up(w as int),
            pad_up(h as int) * pad_up(w as int),
        ),
        (Move::Merge { wp: pad_up(w as int) as usize }).makes(
            pad_up(h as int) * pad_up(w as int),
            pad_up(h as int) * pad_up(w as int),
        ),
{
    let hp = pad_up(h as int);
    let wp = pad_up(w as int);
    let (a, b) = (hp / 12, wp / 12);
    assert(hp == 12 * a && wp == 12 * b);
    assert(a * b * 144 == hp * wp && 12 * a * wp == hp * wp) by (nonlinear_arith)
        requires
            hp == 12 * a,
            wp == 12 * b,
    ;
    assert(0 <= a * b && 0 <= hp * wp && h * w <= hp * wp && h * wp <= hp * wp) by (nonlinear_arith)
        requires
            0 <= a,
            0 <= b,
            0 <= h <= hp,
            0 <= w <= wp,
    ;
    assert(hp * wp <= (hp * wp) * c) by (nonlinear_arith)
        requires
            0 <= hp * wp,
            1 <= c,
    ;
    if 0 < hp * wp {
        assert(0 < hp && 0 < wp) by (nonlinear_arith)
            requires
                0 < hp * wp,
                0 <= hp,
                0 <= wp,
        ;
        assert(12 * hp <= hp * wp && 12 * wp <= hp * wp) by (nonlinear_arith)
            requires
                12 <= hp,
                12 <= wp,
        ;
        assert(0 < (hp * wp) * c) by (nonlinear_arith)
            requires
                0 < hp * wp,
                0 < c,
        ;
        let at = wp as usize;
        assert(hp * wp == (a * (at as int / 12)) * 144 && 12 * a * at <= hp * wp);
        assert((Move::Split { wp: at }).makes(hp * wp, hp * wp));
        assert(hp * wp == 12 * a * at && (a * (at as int / 12)) * 144 <= hp * wp);
        assert((Move::Merge { wp: at }).makes(hp * wp, hp * wp));
    }
}

impl<T: Scalar> SwinBlock<T> {
    fn cut(&self, x: &Vec<T>, h: usize, w: usize, hp: usize, wp: usize, Ghost(mask_len): Ghost<
        Option<int>,
    >) -> (r: Vec<T>)
        requires
            self.fits(x@.len() as int, h, w, mask_len),
            hp == pad_up(h as int),
            wp == pad_up(w as int),
        ensures
            r@.len() == (hp * wp) * self.features(),
            forall|m: Arith<T>| #[trigger] computes(m) ==> r@ == self.windows_in(m, x@, h, w),
    {
        let c = self.norm1.w.len();
        proof {
            lemma_sizes(h, w, c as int);
            assert((hp * wp) * c <= usize::MAX);
        }
        let mut y = copied(x);
        self.norm1.apply(&mut y);
        let n = hp * wp;
        proof {
            assert((h * w) * c <= y@.len());
        }
        let mut image = move_rows(&y, c, h * w, n, Move::Pad { h, w, wp });
        if self.shift > 0 {
            image = move_rows(&image, c, n, n, Move::Roll { hp, wp, by: self.shift });
        }
        move_rows(&image, c, n, n, Move::Split { wp })
    }

    /// Applies the block to the features of an image of `h` by `w` positions.
    pub fn apply(&self, x: &Vec<T>, h: usize, w: usize, mask: Option<&[T]>) -> (r: Vec<T>)
        requires
            self.fits(x@.len() as int, h, w, opt_len(mask)),
        ensures
            r@.len() == x@.len(),
            forall|m: Arith<T>| #[trigger] computes(m) ==> r@ == self.out(m, x@, h, w, opt(mask)),
    {
        let c = self.norm1.w.len();
        let hp = padded(h);
        let wp = padded(w);
        proof {
            lemma_sizes(h, w, c as int);
        }
        let n = hp * wp;
        let n_win = (hp / WINDOW) * (wp / WINDOW);
        let windows = self.cut(x, h, w, hp, wp, Ghost(opt_len(mask)));
        let attended = self.attn.apply(&windows, n_win, mask);
        let mut image = move_rows(&attended, c, n, n, Move::Merge { wp });
        if self.shift > 0 {
            image = move_rows(&image, c, n, n, Move::Unroll { hp, wp, by: self.shift });
        }
        proof {
            assert((h * wp) * c <= (hp * wp) * c) by (nonlinear_arith)
                requires
                    h * wp <= hp * wp,
                    0 < c,
            ;
        }
        let mid = add_residual(x, &image, h, w, wp, c);
        let mut z = copied(&mid);
        self.norm2.apply(&mut z);
        let more = self.mlp.apply(&z);
        add_zip(&mid, &more)
    }
}

// ---- stages ---------------------------------------------------------------------------

/// The parts of the backbone that are to be written, and where.
#[derive(Debug)]
pub struct BlockDump {
    pub dir: String,
    pub names: Vec<String>,
}

/// The name of what block `b` of a stage makes.
pub open spec fn block_name(tag: Seq<char>, stage: int, b: int) -> Seq<char> {
    tag + "_blocks_"@ + number_text(stage) + "_"@ + number_text(b)
}

/// The name of what a stage hands to the next.
pub open spec fn downsample_name(tag: Seq<char>, stage: int) -> Seq<char> {
    tag + "_downsample_"@ + number_text(stage)
}

/// What is asked for of a pass through a stage, as a mathematical value: where to write
/// which names, a number that is 0 for a pass that is written, the name of the pass and the
/// number of features.
#[verifier::ext_equal]
pub struct Ask {
    pub dir: Seq<char>,
    pub names: Seq<Seq<char>>,
    pub pass: int,
    pub tag: Seq<char>,
    pub features: int,
}

/// What is asked for, as a mathematical value.
pub open spec fn ask_of(dbg: Option<(&BlockDump, usize, &str, usize)>) -> Option<Ask> {
    match dbg {
        Some((bd, pass, tag, cdim)) => Some(
            Ask {
                dir: bd.dir@,
                names: texts(bd.names@),
                pass: pass as int,
                tag: tag@,
                features: cdim as int,
            },
        ),
        None => None,
    }
}

/// What is written of rows of features of this name.
pub open spec fn part_written<T>(ask: Ask, name: Seq<char>, tokens: Seq<T>, c: int) -> Seq<
    Entry<T>,
> {
    if ask.pass == 0 && ask.names.contains(name) {
        seq![Entry { dir: ask.dir, name, img: tokens_img(tokens, c) }]
    } else {
        Seq::empty()
    }
}

fn write_part<T: Copy>(
    bd: &BlockDump,
    pass: usize,
    name: &str,
    tokens: &Vec<T>,
    c: usize,
    log: &mut Vec<Record<T>>,
)
    requires
        0 < c,
    ensures
        entries(final(log)@) == entries(old(log)@) + (if pass == 0 && texts(bd.names@).contains(
            name@,
        ) {
            seq![Entry { dir: bd.dir@, name: name@, img: tokens_img(tokens@, c as int) }]
        } else {
            Seq::empty()
        }),
{
    let ghost was = entries(log@);
    if pass == 0 && contains_text(&bd.names, name) {
        dump_tokens_public(bd.dir.as_str(), name, tokens, c, log);
        assert(entries(log@) =~= was + seq![
            Entry { dir: bd.dir@, name: name@, img: tokens_img(tokens@, c as int) },
        ]);
    } else {
        assert(entries(log@) =~= was + Seq::<Entry<T>>::empty());
    }
}

/// A stage: blocks, and a step to half the rows and columns with twice the features.
#[derive(Debug)]
pub struct SwinStage<T> {
    pub blocks: Vec<SwinBlock<T>>,
    pub downsample_norm: Option<LayerNorm<T>>,
    pub downsample: Option<Linear<T>>,
}

/// The prefix of block `b` of a stage.
pub open spec fn block_prefix(stage: int, b: int) -> Seq<char> {
    "bb.layers."@ + number_text(stage) + ".blocks."@ + number_text(b)
}

/// By how much block `b` turns its image: every second one by half a window.
pub open spec fn shift_of(b: int) -> int {
    if b % 2 == 0 {
        0
    } else {
        6
    }
}

/// The steps by which the first `n` blocks of a stage are loaded.
pub open spec fn blocks_steps<T: Scalar>(stage: int, n: int) -> Seq<Step>
    decreases n,
{
    if n <= 0 {
        Seq::empty()
    } else {
        blocks_steps::<T>(stage, n - 1) + SwinBlock::<T>::steps(block_prefix(stage, n - 1))
    }
}

impl<T: Scalar> SwinStage<T> {
    /// The steps by which a stage is loaded.
    #[verifier::opaque]
    pub open spec fn steps(stage: int) -> Seq<Step> {
        let blocks = blocks_steps::<T>(stage, DEPTHS@[stage] as int);
        if stage < 3 {
            blocks + LayerNorm::<T>::steps(
                "bb.layers."@ + number_text(stage) + ".downsample.norm"@,
            ) + Linear::<T>::steps(
                "bb.layers."@ + number_text(stage) + ".downsample.reduction.weight"@,
            )
        } else {
            blocks
        }
    }

    /// The stage is the one that the weights hold.
    pub open spec fn loaded(self, w: Checkpoint, stage: int) -> bool {
        &&& self.blocks@.len() == DEPTHS@[stage]
        &&& forall|b: int|
            0 <= b < self.blocks@.len() ==> (#[trigger] self.blocks@[b]).loaded(
                w,
                block_prefix(stage, b),
                DIMS@[stage] as int,
                HEADS@[stage] as int,
                shift_of(b),
            )
        &&& self.downsample_norm is Some == (stage < 3)
        &&& self.downsample is Some == (stage < 3)
        &&& self.downsample_norm matches Some(l) ==> l.loaded(
            w,
            "bb.layers."@ + number_text(stage) + ".downsample.norm"@,
        )
        &&& self.downsample matches Some(l) ==> l.loaded(
            w,
            "bb.layers."@ + number_text(stage) + ".downsample.reduction.weight"@,
        )
    }

    fn load_block(wts: &Weights, stage: usize, b: usize, dim: usize, heads: usize) -> (r: Result<
        SwinBlock<T>,
        WeightsError,
    >)
        requires
            wts.wf(),
            0 < heads,
        ensures
            match r {
                Ok(block) => {
                    &&& clear(wts@, SwinBlock::<T>::steps(block_prefix(stage as int, b as int)))
                    &&& block.loaded(
                        wts@,
                        block_prefix(stage as int, b as int),
                        dim as int,
                        heads as int,
                        shift_of(b as int),
                    )
                },
                Err(e) => fails_with(
                    wts@,
                    SwinBlock::<T>::steps(block_prefix(stage as int, b as int)),
                    e@,
                ),
            },
    {
        let mut prefix = numbered("bb.layers.", stage, ".blocks.");
        prefix.append(number_string(b).as_str());
        let shift = if b % 2 == 0 {
            0
        } else {
            WINDOW / 2
        };
        SwinBlock::load(wts, prefix.as_str(), dim, heads, shift)
    }

    fn load_blocks(wts: &Weights, stage: usize) -> (r: Result<Vec<SwinBlock<T>>, WeightsError>)
        requires
            wts.wf(),
            stage < 4,
        ensures
            match r {
                Ok(blocks) => {
                    &&& clear(
                        wts@,
                        blocks_steps::<T>(stage as int, DEPTHS@[stage as int] as int),
                    )
                    &&& blocks@.len() == DEPTHS@[stage as int]
                    &&& forall|b: int|
                        0 <= b < blocks@.len() ==> (#[trigger] blocks@[b]).loaded(
                            wts@,
                            block_prefix(stage as int, b),
                            DIMS@[stage as int] as int,
                            HEADS@[stage as int] as int,
                            shift_of(b),
                        )
                },
                Err(e) => fails_with(
                    wts@,
                    blocks_steps::<T>(stage as int, DEPTHS@[stage as int] as int),
                    e@,
                ),
            },
    {
        let dim = DIMS[stage];
        let heads = HEADS[stage];
        let depth = DEPTHS[stage];
        let mut blocks: Vec<SwinBlock<T>> = Vec::with_capacity(depth);
        let mut b: usize = 0;
        while b < depth
            invariant
                wts.wf(),
                stage < 4,
                0 < heads,
                depth == DEPTHS@[stage as int],
                b <= depth,
                blocks@.len() == b,
                clear(wts@, blocks_steps::<T>(stage as int, b as int)),
                forall|k: int|
                    0 <= k < b ==> (#[trigger] blocks@[k]).loaded(
                        wts@,
                        block_prefix(stage as int, k),
                        dim as int,
                        heads as int,
                        shift_of(k),
                    ),
            decreases depth - b,
        {
            match Self::load_block(wts, stage, b, dim, heads) {
                Err(e) => {
                    proof {
                        lemma_next_block_fails::<T>(wts@, stage as int, b as int, e@);
                        lemma_blocks_fail::<T>(wts@, stage as int, b + 1, depth as int, e@);
                    }
                    return Err(e);
                },
                Ok(block) => {
                    blocks.push(block);
                },
            }
            proof {
                lemma_next_block_clear::<T>(wts@, stage as int, b as int);
            }
            b += 1;
        }
        Ok(blocks)
    }

    /// Loads a stage.
    pub fn load(wts: &Weights, stage: usize) -> (r: Result<SwinStage<T>, WeightsError>)
        requires
            wts.wf(),
            stage < 4,
        ensures
            match r {
                Ok(s) => clear(wts@, Self::steps(stage as int)) && s.loaded(wts@, stage as int),
                Err(e) => fails_with(wts@, Self::steps(stage as int), e@),
            },
    {
        reveal(SwinStage::steps);
        let blocks: Vec<SwinBlock<T>> = match Self::load_blocks(wts, stage) {
            Err(e) => {
                return Err(e);
            },
            Ok(b) => b,
        };
        if stage < 3 {
            let norm: LayerNorm<T> = match LayerNorm::load(
                wts,
                numbered("bb.layers.", stage, ".downsample.norm").as_str(),
            ) {
                Err(e) => {
                    return Err(e);
                },
                Ok(l) => l,
            };
            let red: Linear<T> = match Linear::load(
                wts,
                numbered("bb.layers.", stage, ".downsample.reduction.weight").as_str(),
            ) {
                Err(e) => {
                    return Err(e);
                },
                Ok(l) => l,
            };
            Ok(SwinStage { blocks, downsample_norm: Some(norm), downsample: Some(red) })
        } else {
            Ok(SwinStage { blocks, downsample_norm: None, downsample: None })
        }
    }

    /// What the first `n` blocks make of the features of an image.
    pub open spec fn blocks_out(
        self,
        m: Arith<T>,
        x: Seq<T>,
        h: usize,
        w: usize,
        n: int,
    ) -> Seq<T>
        decreases n,
    {
        if n <= 0 {
            x
        } else {
            let block = self.blocks@[n - 1];
            block.out(
                m,
                self.blocks_out(m, x, h, w, n - 1),
                h,
                w,
                if block.shift > 0 {
                    Some(mask_spec(m, pad_up(h as int), pad_up(w as int)))
                } else {
                    None
                },
            )
        }
    }

    /// What the blocks make of the features of an image.
    pub open spec fn out(self, m: Arith<T>, x: Seq<T>, h: usize, w: usize) -> Seq<T> {
        self.blocks_out(m, x, h, w, self.blocks@.len() as int)
    }

    /// Whether the stage has a next one to hand features to.
    pub open spec fn steps_down(self) -> bool {
        self.downsample_norm is Some && self.downsample is Some
    }

    /// What the stage hands to the next one: the features of four neighbours together,
    /// normalised and mapped. The last stage hands on what its blocks make.
    pub open spec fn down(self, m: Arith<T>, x: Seq<T>, h: usize, w: usize, b: int) -> Seq<T> {
        let y = self.out(m, x, h, w);
        if self.steps_down() {
            let c = y.len() as int / (b * (h * w));
            let folded = moved(
                m,
                y,
                c,
                (b * (half(h as int) * half(w as int))) * 4,
                Move::Fold { h, w },
            );
            self.downsample->0.out(m, self.downsample_norm->0.out(m, folded))
        } else {
            y
        }
    }

    /// What is written of the first `n` blocks.
    pub open spec fn blocks_written(
        self,
        m: Arith<T>,
        x: Seq<T>,
        h: usize,
        w: usize,
        stage: int,
        ask: Option<Ask>,
        n: int,
    ) -> Seq<Entry<T>>
        decreases n,
    {
        if n <= 0 || ask is None {
            Seq::empty()
        } else {
            self.blocks_written(m, x, h, w, stage, ask, n - 1) + part_written(
                ask->0,
                block_name(ask->0.tag, stage, n - 1),
                self.blocks_out(m, x, h, w, n),
                ask->0.features,
            )
        }
    }

    /// What is written of the stage.
    pub open spec fn written(
        self,
        m: Arith<T>,
        x: Seq<T>,
        h: usize,
        w: usize,
        b: int,
        stage: int,
        ask: Option<Ask>,
    ) -> Seq<Entry<T>> {
        let blocks = self.blocks_written(m, x, h, w, stage, ask, self.blocks@.len() as int);
        if self.steps_down() && ask is Some {
            blocks + part_written(
                ask->0,
                downsample_name(ask->0.tag, stage),
                self.down(m, x, h, w, b),
                2 * (x.len() as int / (b * (h * w))),
            )
        } else {
            blocks
        }
    }

    /// The stage is defined on `n` elements, `b` images of `h` by `w` positions.
    pub open spec fn fits(self, n: int, h: usize, w: usize, b: int) -> bool {
        let mask_len = (pad_up(h as int) / 12) * (pad_up(w as int) / 12) * 20736;
        &&& pad_up(h as int) <= isize::MAX
        &&& pad_up(w as int) <= isize::MAX
        &&& mask_len <= usize::MAX
        &&& forall|i: int|
            0 <= i < self.blocks@.len() ==> (#[trigger] self.blocks@[i]).fits(
                n,
                h,
                w,
                if self.blocks@[i].shift > 0 {
                    Some(mask_len)
                } else {
                    None
                },
            )
        &&& self.steps_down() ==> {
            let c = n / (b * (h * w));
            let folded = ((b * (half(h as int) * half(w as int))) * 4) * c;
            &&& 0 < b * (h * w) <= usize::MAX
            &&& (b * (half(h as int) * half(w as int))) * 4 <= usize::MAX
            &&& folded <= usize::MAX
            &&& 0 < c
            &&& 2 * c <= usize::MAX
            &&& self.downsample_norm->0.fits()
            &&& self.downsample->0.fits(folded)
        }
    }
}

impl<T: Scalar> SwinStage<T> {
    /// Number of elements that the stage hands to the next one.
    pub open spec fn down_len(self, n: int, h: usize, w: usize, b: int) -> int {
        if self.steps_down() {
            self.downsample->0.out_len(
                ((b * (half(h as int) * half(w as int))) * 4) * (n / (b * (h * w))),
            )
        } else {
            n
        }
    }

    fn run_blocks(
        &self,
        x: &Vec<T>,
        h: usize,
        w: usize,
        Ghost(b): Ghost<int>,
        stage: usize,
        dbg: Option<(&BlockDump, usize, &str, usize)>,
        log: &mut Vec<Record<T>>,
    ) -> (r: Vec<T>)
        requires
            self.fits(x@.len() as int, h, w, b),
            ask_of(dbg) matches Some(a) ==> 0 < a.features,
        ensures
            r@.len() == x@.len(),
            forall|m: Arith<T>| #[trigger]
                computes(m) ==> {
                    &&& r@ == self.out(m, x@, h, w)
                    &&& entries(final(log)@) == entries(old(log)@) + self.blocks_written(
                        m,
                        x@,
                        h,
                        w,
                        stage as int,
                        ask_of(dbg),
                        self.blocks@.len() as int,
                    )
                },
    {
        let hp = padded(h);
        let wp = padded(w);
        let mask: Vec<T> = build_mask(hp, wp);
        let mut cur = copied(x);
        let mut i: usize = 0;
        let ghost was = entries(log@);
        assert(was + Seq::<Entry<T>>::empty() =~= was);
        while i < self.blocks.len()
            invariant
                i <= self.blocks@.len(),
                self.fits(x@.len() as int, h, w, b),
                ask_of(dbg) matches Some(a) ==> 0 < a.features,
                mask@.len() == (pad_up(h as int) / 12) * (pad_up(w as int) / 12) * 20736,
                forall|m: Arith<T>| #[trigger]
                    computes(m) ==> mask@ == mask_spec(m, pad_up(h as int), pad_up(w as int)),
                cur@.len() == x@.len(),
                forall|m: Arith<T>| #[trigger]
                    computes(m) ==> {
                        &&& cur@ == self.blocks_out(m, x@, h, w, i as int)
                        &&& entries(log@) == was + self.blocks_written(
                            m,
                            x@,
                            h,
                            w,
                            stage as int,
                            ask_of(dbg),
                            i as int,
                        )
                    },
            decreases self.blocks@.len() - i,
        {
            let block = &self.blocks[i];
            let m: Option<&[T]> = if block.shift > 0 {
                Some(mask.as_slice())
            } else {
                None
            };
            assert(self.blocks@[i as int].fits(x@.len() as int, h, w, opt_len(m)));
            cur = block.apply(&cur, h, w, m);
            assert forall|m: Arith<T>| #[trigger] computes(m) implies cur@ == self.blocks_out(
                m,
                x@,
                h,
                w,
                i + 1,
            ) by {}
            if let Some((bd, pass, tag, cdim)) = dbg {
                let ghost before = entries(log@);
                let mut name = numbered(joined(tag, "_blocks_").as_str(), stage, "_");
                name.append(number_string(i).as_str());
                write_part(bd, pass, name.as_str(), &cur, cdim, log);
                assert forall|m: Arith<T>| #[trigger] computes(m) implies entries(log@) == was
                    + self.blocks_written(m, x@, h, w, stage as int, ask_of(dbg), i + 1) by {
                    let old_part = self.blocks_written(
                        m,
                        x@,
                        h,
                        w,
                        stage as int,
                        ask_of(dbg),
                        i as int,
                    );
                    let part = part_written(
                        ask_of(dbg)->0,
                        block_name(tag@, stage as int, i as int),
                        cur@,
                        cdim as int,
                    );
                    assert(entries(log@) == before + part);
                    assert(before + part =~= was + (old_part + part));
                }
            }
            i += 1;
        }
        cur
    }

    /// Applies the stage to `b` images of `h` by `w` positions: what the blocks make, with
    /// its rows and columns, and what goes to the next stage, with its rows and columns.
    pub fn apply_dbg(
        &self,
        x: &Vec<T>,
        h: usize,
        w: usize,
        b: usize,
        stage: usize,
        dbg: Option<(&BlockDump, usize, &str, usize)>,
        log: &mut Vec<Record<T>>,
    ) -> (r: (Vec<T>, usize, usize, Vec<T>, usize, usize))
        requires
            self.fits(x@.len() as int, h, w, b as int),
            ask_of(dbg) matches Some(a) ==> 0 < a.features,
        ensures
            r.0@.len() == x@.len(),
            r.1 == h && r.2 == w,
            r.3@.len() == self.down_len(x@.len() as int, h, w, b as int),
            self.steps_down() ==> r.4 == half(h as int) && r.5 == half(w as int),
            !self.steps_down() ==> r.4 == 0 && r.5 == 0,
            forall|m: Arith<T>| #[trigger]
                computes(m) ==> {
                    &&& r.0@ == self.out(m, x@, h, w)
                    &&& r.3@ == self.down(m, x@, h, w, b as int)
                    &&& entries(final(log)@) == entries(old(log)@) + self.written(
                        m,
                        x@,
                        h,
                        w,
                        b as int,
                        stage as int,
                        ask_of(dbg),
                    )
                },
    {
        let out = self.run_blocks(x, h, w, Ghost(b as int), stage, dbg, log);
        match (&self.downsample_norm, &self.downsample) {
            (Some(norm), Some(red)) => {
                proof {
                    assert(h * w <= b * (h * w) && 0 < h * w) by (nonlinear_arith)
                        requires
                            0 < b * (h * w),
                            0 <= b,
                            0 <= h * w,
                    ;
                    assert(0 < b) by (nonlinear_arith)
                        requires
                            0 < b * (h * w),
                            0 <= b,
                    ;
                }
                let area = b * (h * w);
                let c = out.len() / area;
                let oh = half_up(h);
                let ow = half_up(w);
                proof {
                    vstd::arithmetic::div_mod::lemma_fundamental_div_mod(
                        out@.len() as int,
                        area as int,
                    );
                    assert(area * c <= out@.len());
                    assert(0 <= oh * ow) by (nonlinear_arith);
                    assert(oh * ow <= b * (oh * ow)) by (nonlinear_arith)
                        requires
                            1 <= b,
                            0 <= oh * ow,
                    ;
                    assert((b * (oh * ow)) * 4 == (b * (half(h as int) * half(w as int))) * 4);
                }
                let rows = (b * (oh * ow)) * 4;
                let mut folded = move_rows(&out, c, area, rows, Move::Fold { h, w });
                norm.apply(&mut folded);
                let down = red.apply(&folded);
                if let Some((bd, pass, tag, cdim)) = dbg {
                    let ghost before = entries(log@);
                    let name = numbered(joined(tag, "_downsample_").as_str(), stage, "");
                    proof {
                        reveal_strlit("");
                        assert(name@ =~= downsample_name(tag@, stage as int));
                    }
                    write_part(bd, pass, name.as_str(), &down, 2 * c, log);
                    assert forall|m: Arith<T>| #[trigger] computes(m) implies entries(log@)
                        == entries(old(log)@) + self.written(
                        m,
                        x@,
                        h,
                        w,
                        b as int,
                        stage as int,
                        ask_of(dbg),
                    ) by {
                        let blocks = self.blocks_written(
                            m,
                            x@,
                            h,
                            w,
                            stage as int,
                            ask_of(dbg),
                            self.blocks@.len() as int,
                        );
                        let part = part_written(
                            ask_of(dbg)->0,
                            downsample_name(tag@, stage as int),
                            down@,
                            2 * c,
                        );
                        assert(before == entries(old(log)@) + blocks);
                        assert(down@ == self.down(m, x@, h, w, b as int));
                        assert(before + part =~= entries(old(log)@) + (blocks + part));
                    }
                }
                (out, h, w, down, oh, ow)
            },
            _ => {
                let down = copied(&out);
                (out, h, w, down, 0, 0)
            },
        }
    }
}

proof fn lemma_next_block_clear<T: Scalar>(w: Checkpoint, stage: int, b: int)
    requires
        0 <= b,
        clear(w, blocks_steps::<T>(stage, b)),
        clear(w, SwinBlock::<T>::steps(block_prefix(stage, b))),
    ensures
        clear(w, blocks_steps::<T>(stage, b + 1)),
{
}

proof fn lemma_next_block_fails<T: Scalar>(
    w: Checkpoint,
    stage: int,
    b: int,
    p: crate::weights::Problem<Seq<u8>, Seq<usize>>,
)
    requires
        0 <= b,
        clear(w, blocks_steps::<T>(stage, b)),
        fails_with(w, SwinBlock::<T>::steps(block_prefix(stage, b)), p),
    ensures
        fails_with(w, blocks_steps::<T>(stage, b + 1), p),
{
}

proof fn lemma_blocks_fail<T: Scalar>(
    w: Checkpoint,
    stage: int,
    k: int,
    n: int,
    p: crate::weights::Problem<Seq<u8>, Seq<usize>>,
)
    requires
        k <= n,
        fails_with(w, blocks_steps::<T>(stage, k), p),
    ensures
        fails_with(w, blocks_steps::<T>(stage, n), p),
    decreases n - k,
{
    if k < n {
        assert(0 <= k);
        assert(fails_with(w, blocks_steps::<T>(stage, k + 1), p));
        lemma_blocks_fail::<T>(w, stage, k + 1, n, p);
    }
}

} // verus!
