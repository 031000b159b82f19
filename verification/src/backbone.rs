//! The pass through the backbone.

use crate::conv::{conv4x4_stride4, conv4x4_stride4_fits, conv4x4_stride4_spec};
use crate::dump::{
    dump_tokens_public, entries, texts, tokens_img, Dump, Entry, Record, Wish,
};
use crate::layout::{image_of, imgs, nchw_to_tokens, tokens_of, tokens_to_nchw};
use crate::linear::LN_EPS;
use crate::model::Rmbg;
use crate::pointwise::{layernorm_slice, layernorm_spec};
use crate::scalar::{computes, Arith, Scalar};
use crate::swin::{ask_of, Ask, BlockDump, DIMS};
use crate::tensor::{copied, dims_fit, Img, Tensor};
use crate::windows::half;
use crate::words::joined;
use vstd::prelude::*;

verus! {

/// The features of an image of `h` by `w` positions.
#[verifier::ext_equal]
pub struct Grid<T> {
    pub tokens: Seq<T>,
    pub h: usize,
    pub w: usize,
}

/// Every complete row of `c` features normalised.
pub open spec fn normed<T>(m: Arith<T>, t: Seq<T>, c: int, w: Seq<T>, b: Seq<T>) -> Seq<T> {
    layernorm_spec(m, t, t.len() as int / c, c, w, b, (m.bits)(LN_EPS))
}

/// Number of features of a stage.
pub open spec fn dim_of(s: int) -> int {
    DIMS@[s] as int
}

impl<T: Scalar> Rmbg<T> {
    /// The features that the image is cut into.
    pub open spec fn embedded(self, m: Arith<T>, x: Img<T>) -> Seq<T> {
        normed(
            m,
            tokens_of(conv4x4_stride4_spec(m, x, self.proj_w@, 192, 3, Some(self.proj_b@))),
            192,
            self.pe_norm_w@,
            self.pe_norm_b@,
        )
    }

    /// The features that go into stage `s`.
    pub open spec fn entering(self, m: Arith<T>, x: Img<T>, s: int) -> Grid<T>
        decreases s,
    {
        if s <= 0 {
            Grid {
                tokens: self.embedded(m, x),
                h: (x.h / 4) as usize,
                w: (x.w / 4) as usize,
            }
        } else {
            let g = self.entering(m, x, s - 1);
            let stage = self.stages@[s - 1];
            Grid {
                tokens: stage.down(m, g.tokens, g.h, g.w, 1),
                h: self.next_size(s - 1, g.h),
                w: self.next_size(s - 1, g.w),
            }
        }
    }

    /// Rows or columns behind stage `s`, of `n` before it.
    pub open spec fn next_size(self, s: int, n: usize) -> usize {
        if self.stages@[s].steps_down() {
            half(n as int) as usize
        } else {
            0
        }
    }

    /// The feature map of stage `s`.
    #[verifier::opaque]
    pub open spec fn feature(self, m: Arith<T>, x: Img<T>, s: int) -> Img<T> {
        let g = self.entering(m, x, s);
        image_of(
            normed(
                m,
                self.stages@[s].out(m, g.tokens, g.h, g.w),
                dim_of(s),
                self.norm_w@[s]@,
                self.norm_b@[s]@,
            ),
            dim_of(s),
            g.h as int,
            g.w as int,
        )
    }

    /// The feature maps of the four stages.
    pub open spec fn features(self, m: Arith<T>, x: Img<T>) -> Seq<Img<T>> {
        Seq::new(4, |s: int| self.feature(m, x, s))
    }

    /// Rows or columns that stage `s` works on, of `n` in the image.
    pub open spec fn size_at(self, n: int, s: int) -> usize
        decreases s,
    {
        if s <= 0 {
            (n / 4) as usize
        } else {
            self.next_size(s - 1, self.size_at(n, s - 1))
        }
    }

    /// Number of elements that go into stage `s`.
    pub open spec fn elements_at(self, h: int, w: int, s: int) -> int
        decreases s,
    {
        if s <= 0 {
            192 * ((h / 4) * (w / 4))
        } else {
            self.stages@[s - 1].down_len(
                self.elements_at(h, w, s - 1),
                self.size_at(h, s - 1),
                self.size_at(w, s - 1),
                1,
            )
        }
    }

    /// Stage `s` is defined behind the stages before it.
    pub open spec fn stage_fits(self, h: int, w: int, s: int) -> bool {
        let (n, gh, gw) = (self.elements_at(h, w, s), self.size_at(h, s), self.size_at(w, s));
        &&& self.stages@[s].fits(n, gh, gw, 1)
        &&& dim_of(s) <= self.norm_w@[s]@.len()
        &&& dim_of(s) <= self.norm_b@[s]@.len()
        &&& dims_fit(dim_of(s), gh as int, gw as int)
        &&& dim_of(s) * (gh * gw) <= n
    }

    /// The backbone is defined on tensors of these dimensions.
    #[verifier::opaque]
    pub open spec fn backbone_fits(self, c: int, h: int, w: int) -> bool {
        &&& self.complete()
        &&& conv4x4_stride4_fits(
            c,
            h,
            w,
            self.proj_w@.len() as int,
            192,
            3,
            Some(self.proj_b@.len() as int),
        )
        &&& 192 <= self.pe_norm_w@.len()
        &&& 192 <= self.pe_norm_b@.len()
        &&& forall|s: int| 0 <= s < 4 ==> #[trigger] self.stage_fits(h, w, s)
    }
}

/// What is asked for of a stage.
pub open spec fn stage_ask(dump: Wish, tag: Seq<char>, s: int) -> Ask {
    Ask {
        dir: dump.place(),
        names: dump.parts(),
        pass: 0,
        tag,
        features: dim_of(s),
    }
}

impl<T: Scalar> Rmbg<T> {
    /// What is written of the first `n` stages.
    pub open spec fn stages_written(
        self,
        m: Arith<T>,
        x: Img<T>,
        tag: Seq<char>,
        dump: Wish,
        n: int,
    ) -> Seq<Entry<T>>
        decreases n,
    {
        if n <= 0 {
            Seq::empty()
        } else {
            let g = self.entering(m, x, n - 1);
            self.stages_written(m, x, tag, dump, n - 1) + self.stages@[n - 1].written(
                m,
                g.tokens,
                g.h,
                g.w,
                1,
                n - 1,
                Some(stage_ask(dump, tag, n - 1)),
            )
        }
    }

    /// What is written of the features that the image is cut into.
    pub open spec fn embedding_written(
        self,
        m: Arith<T>,
        x: Img<T>,
        tag: Seq<char>,
        dump: Wish,
    ) -> Seq<Entry<T>> {
        dump.written(tag + "_patch_embed_norm"@, tokens_img(self.embedded(m, x), 192))
    }

    /// What is written of a pass through the backbone.
    #[verifier::opaque]
    pub open spec fn backbone_written(
        self,
        m: Arith<T>,
        x: Img<T>,
        tag: Seq<char>,
        dump: Wish,
    ) -> Seq<Entry<T>> {
        self.embedding_written(m, x, tag, dump) + self.stages_written(m, x, tag, dump, 4)
    }

    fn embed(&self, x: &Tensor<T>, tag: &str, dump: &Dump, log: &mut Vec<Record<T>>) -> (r: Vec<T>)
        requires
            x@.wf(),
            self.backbone_fits(x.c as int, x.h as int, x.w as int),
        ensures
            r@.len() == self.elements_at(x.h as int, x.w as int, 0),
            forall|m: Arith<T>| #[trigger]
                computes(m) ==> {
                    &&& r@ == self.embedded(m, x@)
                    &&& entries(final(log)@) == entries(old(log)@) + self.embedding_written(
                        m,
                        x@,
                        tag@,
                        dump@,
                    )
                },
    {
        reveal(Rmbg::backbone_fits);
        let tok = conv4x4_stride4(x, &self.proj_w, 192, 3, Some(self.proj_b.as_slice()));
        let mut tokens = nchw_to_tokens(&tok);
        layernorm_slice(
            &mut tokens,
            192,
            &self.pe_norm_w,
            &self.pe_norm_b,
            T::from_bits(LN_EPS),
        );
        let name = joined(tag, "_patch_embed_norm");
        let ghost was = entries(log@);
        if dump.wants(name.as_str()) {
            match &dump.dir {
                Some(d) => dump_tokens_public(d.as_str(), name.as_str(), &tokens, 192, log),
                None => {},
            }
        }
        assert forall|m: Arith<T>| #[trigger] computes(m) implies entries(log@) == was
            + self.embedding_written(m, x@, tag@, dump@) by {
            assert(tokens@ == self.embedded(m, x@));
            assert(entries(log@) =~= was + self.embedding_written(m, x@, tag@, dump@));
        }
        tokens
    }

    fn feature_map(&self, out: &Vec<T>, h: usize, w: usize, s: usize) -> (r: Tensor<T>)
        requires
            s < 4,
            self.complete(),
            dim_of(s as int) <= self.norm_w@[s as int]@.len(),
            dim_of(s as int) <= self.norm_b@[s as int]@.len(),
            dims_fit(dim_of(s as int), h as int, w as int),
            dim_of(s as int) * (h * w) <= out@.len(),
        ensures
            r@.wf(),
            r.c == dim_of(s as int) && r.h == h && r.w == w,
            forall|m: Arith<T>| #[trigger]
                computes(m) ==> r@ == image_of(
                    normed(
                        m,
                        out@,
                        dim_of(s as int),
                        self.norm_w@[s as int]@,
                        self.norm_b@[s as int]@,
                    ),
                    dim_of(s as int),
                    h as int,
                    w as int,
                ),
    {
        let c = DIMS[s];
        let mut t = copied(out);
        layernorm_slice(&mut t, c, &self.norm_w[s], &self.norm_b[s], T::from_bits(LN_EPS));
        tokens_to_nchw(&t, c, h, w)
    }

    /// Passes an image through the backbone and gives the feature maps of the four stages.
    pub fn backbone_once(
        &self,
        x: &Tensor<T>,
        tag: &str,
        dump: &Dump,
        log: &mut Vec<Record<T>>,
    ) -> (r: Vec<Tensor<T>>)
        requires
            x@.wf(),
            self.backbone_fits(x.c as int, x.h as int, x.w as int),
        ensures
            r@.len() == 4,
            forall|s: int|
                0 <= s < 4 ==> (#[trigger] r@[s])@.wf() && r@[s].c == dim_of(s) && r@[s].h
                    == self.size_at(x.h as int, s) && r@[s].w == self.size_at(x.w as int, s),
            forall|m: Arith<T>| #[trigger]
                computes(m) ==> {
                    &&& imgs(r@) == self.features(m, x@)
                    &&& entries(final(log)@) == entries(old(log)@) + self.backbone_written(
                        m,
                        x@,
                        tag@,
                        dump@,
                    )
                },
    {
        reveal(Rmbg::backbone_fits);
        reveal(Rmbg::feature);
        reveal(Rmbg::backbone_written);
        let ghost was = entries(log@);
        let mut tokens = self.embed(x, tag, dump, log);
        let names = dump.parts();
        let dir = match &dump.dir {
            Some(d) => d.clone(),
            None => String::new(),
        };
        let bd = BlockDump { dir, names };
        let mut h = x.h / 4;
        let mut w = x.w / 4;
        let mut outs: Vec<Tensor<T>> = Vec::with_capacity(4);
        let mut s: usize = 0;
        let ghost (xh, xw) = (x.h as int, x.w as int);
        assert forall|m: Arith<T>| #[trigger] computes(m) implies entries(log@) == was + (
        self.embedding_written(m, x@, tag@, dump@) + self.stages_written(
            m,
            x@,
            tag@,
            dump@,
            0,
        )) by {
            assert(self.embedding_written(m, x@, tag@, dump@) + self.stages_written(
                m,
                x@,
                tag@,
                dump@,
                0,
            ) =~= self.embedding_written(m, x@, tag@, dump@));
        }
        while s < 4
            invariant
                s <= 4,
                xh == x.h,
                xw == x.w,
                self.backbone_fits(x.c as int, xh, xw),
                bd.dir@ == dump@.place(),
                texts(bd.names@) == dump@.parts(),
                s < 4 ==> tokens@.len() == self.elements_at(xh, xw, s as int),
                s < 4 ==> h == self.size_at(xh, s as int) && w == self.size_at(xw, s as int),
                forall|m: Arith<T>| #[trigger]
                    computes(m) ==> s < 4 ==> self.entering(m, x@, s as int) == (Grid {
                        tokens: tokens@,
                        h,
                        w,
                    }),
                outs@.len() == s,
                forall|k: int|
                    0 <= k < s ==> (#[trigger] outs@[k])@.wf() && outs@[k].c == dim_of(k)
                        && outs@[k].h == self.size_at(xh, k) && outs@[k].w == self.size_at(xw, k),
                forall|m: Arith<T>| #[trigger]
                    computes(m) ==> forall|k: int|
                        0 <= k < s ==> (#[trigger] outs@[k])@ == self.feature(m, x@, k),
                forall|m: Arith<T>| #[trigger]
                    computes(m) ==> entries(log@) == was + (self.embedding_written(
                        m,
                        x@,
                        tag@,
                        dump@,
                    ) + self.stages_written(m, x@, tag@, dump@, s as int)),
            decreases 4 - s,
        {
            reveal(Rmbg::backbone_fits);
            reveal(Rmbg::feature);
            assert(self.stage_fits(xh, xw, s as int));
            let ghost before = entries(log@);
            let dbg: Option<(&BlockDump, usize, &str, usize)> = Some((&bd, 0, tag, DIMS[s]));
            assert(ask_of(dbg) == Some(stage_ask(dump@, tag@, s as int)));
            let (out, oh, ow, down, dh, dw) = self.stages[s].apply_dbg(
                &tokens,
                h,
                w,
                1,
                s,
                dbg,
                log,
            );
            let map = self.feature_map(&out, oh, ow, s);
            assert forall|m: Arith<T>| #[trigger] computes(m) implies entries(log@) == was + (
            self.embedding_written(m, x@, tag@, dump@) + self.stages_written(
                m,
                x@,
                tag@,
                dump@,
                s + 1,
            )) by {
                let a = self.embedding_written(m, x@, tag@, dump@);
                let b = self.stages_written(m, x@, tag@, dump@, s as int);
                let g = self.entering(m, x@, s as int);
                let c = self.stages@[s as int].written(
                    m,
                    g.tokens,
                    g.h,
                    g.w,
                    1,
                    s as int,
                    Some(stage_ask(dump@, tag@, s as int)),
                );
                assert(before == was + (a + b));
                assert(entries(log@) == before + c);
                assert(before + c =~= was + (a + (b + c)));
            }
            outs.push(map);
            if s < 3 {
                tokens = down;
                h = dh;
                w = dw;
            }
            s += 1;
        }
        assert forall|m: Arith<T>| #[trigger] computes(m) implies imgs(outs@) == self.features(
            m,
            x@,
        ) by {
            assert(imgs(outs@) =~= self.features(m, x@));
        }
        outs
    }
}

} // verus!
