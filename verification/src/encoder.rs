//! The encoder: the backbone on the image at two sizes, put together.

use crate::backbone::dim_of;
use crate::dump::{entries, Dump, Entry, Record, Wish};
use crate::layout::{cat_all, cat_c, cat_spec, cat_two, imgs};
use crate::model::Rmbg;
use crate::resize::{resize_bilinear, resize_fits, resize_spec};
use crate::scalar::{computes, Arith, Scalar};
use crate::tensor::{dims_fit, Img, Tensor};
use crate::words::{number_text, numbered};
use vstd::prelude::*;

verus! {

// ---- the encoder ----------------------------------------------------------------------

/// The image at half its size.
pub open spec fn halved<T>(m: Arith<T>, x: Img<T>) -> Img<T> {
    resize_spec(m, x, x.h / 2, x.w / 2, true)
}

/// Two tensors one behind the other, along the planes.
pub open spec fn cat2<T>(a: Img<T>, b: Img<T>) -> Img<T> {
    cat_spec(seq![a, b])
}

impl<T: Scalar> Rmbg<T> {
    /// The features of stage `s` of the image and of the image at half its size.
    #[verifier::opaque]
    pub open spec fn lateral(self, m: Arith<T>, x: Img<T>, s: int) -> Img<T> {
        let full = self.feature(m, x, s);
        cat2(full, resize_spec(m, self.feature(m, halved(m, x), s), full.h, full.w, true))
    }

    /// The features of the coarsest stage together with those of the others, brought to its
    /// size.
    #[verifier::opaque]
    pub open spec fn context(self, m: Arith<T>, x: Img<T>) -> Img<T> {
        let last = self.lateral(m, x, 3);
        cat_spec(
            seq![
                resize_spec(m, self.lateral(m, x, 0), last.h, last.w, true),
                resize_spec(m, self.lateral(m, x, 1), last.h, last.w, true),
                resize_spec(m, self.lateral(m, x, 2), last.h, last.w, true),
                last,
            ],
        )
    }

    /// What the encoder hands to the decoder.
    #[verifier::opaque]
    pub open spec fn encoded(self, m: Arith<T>, x: Img<T>) -> Seq<Img<T>> {
        seq![
            self.lateral(m, x, 0),
            self.lateral(m, x, 1),
            self.lateral(m, x, 2),
            self.context(m, x),
        ]
    }

    /// Number of planes of what the encoder hands to the decoder.
    pub open spec fn enc_planes(s: int) -> int {
        if s == 0 {
            384
        } else if s == 1 {
            768
        } else if s == 2 {
            1536
        } else {
            5760
        }
    }

    /// Stage `s` of both sizes of the image can be put together.
    pub open spec fn lateral_fits(self, h: int, w: int, s: int) -> bool {
        let (fh, fw) = (self.size_at(h, s) as int, self.size_at(w, s) as int);
        &&& resize_fits(
            dim_of(s),
            self.size_at(h / 2, s) as int,
            self.size_at(w / 2, s) as int,
            fh,
            fw,
        )
        &&& dims_fit(2 * dim_of(s), fh, fw)
        &&& s < 3 ==> resize_fits(
            2 * dim_of(s),
            fh,
            fw,
            self.size_at(h, 3) as int,
            self.size_at(w, 3) as int,
        )
    }

    /// The encoder is defined on tensors of these dimensions.
    #[verifier::opaque]
    pub open spec fn encoder_fits(self, c: int, h: int, w: int) -> bool {
        &&& self.backbone_fits(c, h, w)
        &&& resize_fits(c, h, w, h / 2, w / 2)
        &&& self.backbone_fits(c, h / 2, w / 2)
        &&& forall|s: int| 0 <= s < 4 ==> #[trigger] self.lateral_fits(h, w, s)
        &&& dims_fit(5760, self.size_at(h, 3) as int, self.size_at(w, 3) as int)
    }

    /// What is written of the first `n` stages, put together.
    pub open spec fn laterals_written(
        self,
        m: Arith<T>,
        x: Img<T>,
        dump: Wish,
        n: int,
    ) -> Seq<Entry<T>>
        decreases n,
    {
        if n <= 0 {
            Seq::empty()
        } else {
            self.laterals_written(m, x, dump, n - 1) + dump.written(
                "bb_stage"@ + number_text(n - 1),
                self.lateral(m, x, n - 1),
            )
        }
    }

    /// What is written of the encoder.
    #[verifier::opaque]
    pub open spec fn encoder_written(self, m: Arith<T>, x: Img<T>, dump: Wish) -> Seq<Entry<T>> {
        self.backbone_written(m, x, "full"@, dump) + dump.written("half_input"@, halved(m, x))
            + dump.written("norm_input"@, x) + self.backbone_written(
            m,
            halved(m, x),
            "half"@,
            dump,
        ) + self.laterals_written(m, x, dump, 4) + dump.written("cxt_x4"@, self.context(m, x))
    }

    fn put_together(
        &self,
        x: &Tensor<T>,
        full: &Vec<Tensor<T>>,
        small: &Vec<Tensor<T>>,
        dump: &Dump,
        log: &mut Vec<Record<T>>,
    ) -> (r: Vec<Tensor<T>>)
        requires
            self.encoder_fits(x.c as int, x.h as int, x.w as int),
            full@.len() == 4,
            small@.len() == 4,
            forall|s: int|
                0 <= s < 4 ==> (#[trigger] full@[s])@.wf() && full@[s].c == dim_of(s)
                    && full@[s].h == self.size_at(x.h as int, s) && full@[s].w == self.size_at(
                    x.w as int,
                    s,
                ),
            forall|s: int|
                0 <= s < 4 ==> (#[trigger] small@[s])@.wf() && small@[s].c == dim_of(s)
                    && small@[s].h == self.size_at(x.h as int / 2, s) && small@[s].w
                    == self.size_at(x.w as int / 2, s),
            forall|m: Arith<T>| #[trigger]
                computes(m) ==> imgs(full@) == self.features(m, x@) && imgs(small@)
                    == self.features(m, halved(m, x@)),
        ensures
            r@.len() == 4,
            forall|s: int|
                0 <= s < 4 ==> (#[trigger] r@[s])@.wf() && r@[s].c == 2 * dim_of(s) && r@[s].h
                    == self.size_at(x.h as int, s) && r@[s].w == self.size_at(x.w as int, s),
            forall|m: Arith<T>| #[trigger]
                computes(m) ==> {
                    &&& forall|s: int|
                        0 <= s < 4 ==> (#[trigger] r@[s])@ == self.lateral(m, x@, s)
                    &&& entries(final(log)@) == entries(old(log)@) + self.laterals_written(
                        m,
                        x@,
                        dump@,
                        4,
                    )
                },
    {
        reveal(Rmbg::encoder_fits);
        let ghost was = entries(log@);
        let ghost (xh, xw) = (x.h as int, x.w as int);
        let mut out: Vec<Tensor<T>> = Vec::with_capacity(4);
        let mut s: usize = 0;
        assert(was + Seq::<Entry<T>>::empty() =~= was);
        while s < 4
            invariant
                s <= 4,
                xh == x.h,
                xw == x.w,
                self.encoder_fits(x.c as int, xh, xw),
                full@.len() == 4,
                small@.len() == 4,
                forall|s: int|
                    0 <= s < 4 ==> (#[trigger] full@[s])@.wf() && full@[s].c == dim_of(s)
                        && full@[s].h == self.size_at(xh, s) && full@[s].w == self.size_at(xw, s),
                forall|s: int|
                    0 <= s < 4 ==> (#[trigger] small@[s])@.wf() && small@[s].c == dim_of(s)
                        && small@[s].h == self.size_at(xh / 2, s) && small@[s].w == self.size_at(
                        xw / 2,
                        s,
                    ),
                forall|m: Arith<T>| #[trigger]
                    computes(m) ==> imgs(full@) == self.features(m, x@) && imgs(small@)
                        == self.features(m, halved(m, x@)),
                out@.len() == s,
                forall|k: int|
                    0 <= k < s ==> (#[trigger] out@[k])@.wf() && out@[k].c == 2 * dim_of(k)
                        && out@[k].h == self.size_at(xh, k) && out@[k].w == self.size_at(xw, k),
                forall|m: Arith<T>| #[trigger]
                    computes(m) ==> {
                        &&& forall|k: int|
                            0 <= k < s ==> (#[trigger] out@[k])@ == self.lateral(m, x@, k)
                        &&& entries(log@) == was + self.laterals_written(m, x@, dump@, s as int)
                    },
            decreases 4 - s,
        {
            reveal(Rmbg::encoder_fits);
            reveal(Rmbg::lateral);
            assert(self.lateral_fits(xh, xw, s as int));
            let up = resize_bilinear(&small[s], full[s].h, full[s].w, true);
            let both = cat_two(&full[s], &up);
            let name = numbered("bb_stage", s, "");
            proof {
                reveal_strlit("");
                assert(name@ =~= "bb_stage"@ + number_text(s as int));
            }
            assert forall|m: Arith<T>| #[trigger] computes(m) implies both@ == self.lateral(
                m,
                x@,
                s as int,
            ) by {
                assert(imgs(full@)[s as int] == full@[s as int]@);
                assert(imgs(small@)[s as int] == small@[s as int]@);
            }
            let ghost before = entries(log@);
            dump.write_wanted(name.as_str(), &both, log);
            assert forall|m: Arith<T>| #[trigger] computes(m) implies entries(log@) == was
                + self.laterals_written(m, x@, dump@, s + 1) by {
                let a = self.laterals_written(m, x@, dump@, s as int);
                let b = dump@.written(name@, both@);
                assert(before + b =~= was + (a + b));
            }
            out.push(both);
            s += 1;
        }
        out
    }

    fn add_context(&self, x: &Tensor<T>, parts: &Vec<Tensor<T>>) -> (r: Tensor<T>)
        requires
            self.encoder_fits(x.c as int, x.h as int, x.w as int),
            parts@.len() == 4,
            forall|s: int|
                0 <= s < 4 ==> (#[trigger] parts@[s])@.wf() && parts@[s].c == 2 * dim_of(s)
                    && parts@[s].h == self.size_at(x.h as int, s) && parts@[s].w == self.size_at(
                    x.w as int,
                    s,
                ),
            forall|m: Arith<T>| #[trigger]
                computes(m) ==> forall|s: int|
                    0 <= s < 4 ==> (#[trigger] parts@[s])@ == self.lateral(m, x@, s),
        ensures
            r@.wf(),
            r.c == 5760 && r.h == self.size_at(x.h as int, 3) && r.w == self.size_at(
                x.w as int,
                3,
            ),
            forall|m: Arith<T>| #[trigger] computes(m) ==> r@ == self.context(m, x@),
    {
        reveal(Rmbg::encoder_fits);
        reveal(Rmbg::context);
        let h = parts[3].h;
        let w = parts[3].w;
        assert(self.lateral_fits(x.h as int, x.w as int, 0));
        assert(self.lateral_fits(x.h as int, x.w as int, 1));
        assert(self.lateral_fits(x.h as int, x.w as int, 2));
        let a = resize_bilinear(&parts[0], h, w, true);
        let b = resize_bilinear(&parts[1], h, w, true);
        let c = resize_bilinear(&parts[2], h, w, true);
        let all = vec![a, b, c, parts[3].clone()];
        proof {
            let v = imgs(all@);
            assert(v =~= seq![a@, b@, c@, parts@[3]@]);
            reveal_with_fuel(cat_c, 5);
            assert(v[0] == a@ && v[1] == b@ && v[2] == c@ && v[3] == parts@[3]@);
            assert(cat_c(v, 4) == 5760);
            assert forall|i: int| 0 <= i < v.len() implies (#[trigger] v[i]).wf() && v[i].h
                == v[0].h && v[i].w == v[0].w by {}
        }
        let r = cat_all(&all);
        assert forall|m: Arith<T>| #[trigger] computes(m) implies r@ == self.context(m, x@) by {
            assert(parts@[0]@ == self.lateral(m, x@, 0));
            assert(parts@[1]@ == self.lateral(m, x@, 1));
            assert(parts@[2]@ == self.lateral(m, x@, 2));
            assert(parts@[3]@ == self.lateral(m, x@, 3));
        }
        r
    }

    /// Encodes an image.
    pub fn forward_enc(&self, x: &Tensor<T>, dump: &Dump, log: &mut Vec<Record<T>>) -> (r: Vec<
        Tensor<T>,
    >)
        requires
            x@.wf(),
            self.encoder_fits(x.c as int, x.h as int, x.w as int),
        ensures
            r@.len() == 4,
            forall|s: int|
                0 <= s < 4 ==> (#[trigger] r@[s])@.wf() && r@[s].c == Self::enc_planes(s)
                    && r@[s].h == self.size_at(x.h as int, s) && r@[s].w == self.size_at(
                    x.w as int,
                    s,
                ),
            forall|m: Arith<T>| #[trigger]
                computes(m) ==> {
                    &&& imgs(r@) == self.encoded(m, x@)
                    &&& entries(final(log)@) == entries(old(log)@) + self.encoder_written(
                        m,
                        x@,
                        dump@,
                    )
                },
    {
        reveal(Rmbg::encoder_fits);
        reveal(Rmbg::encoded);
        reveal(Rmbg::encoder_written);
        let ghost e0 = entries(log@);
        let full = self.backbone_once(x, "full", dump, log);
        let ghost e1 = entries(log@);
        let half_in = resize_bilinear(x, x.h / 2, x.w / 2, true);
        dump.write_wanted("half_input", &half_in, log);
        let ghost e2 = entries(log@);
        dump.write_wanted("norm_input", x, log);
        let ghost e3 = entries(log@);
        let small = self.backbone_once(&half_in, "half", dump, log);
        let ghost e4 = entries(log@);
        let mut out = self.put_together(x, &full, &small, dump, log);
        let ghost e5 = entries(log@);
        let cxt = self.add_context(x, &out);
        dump.write_wanted("cxt_x4", &cxt, log);
        let ghost parts = out@;
        let ghost last = cxt@;
        out.set(3, cxt);
        assert forall|m: Arith<T>| #[trigger] computes(m) implies imgs(out@) == self.encoded(
            m,
            x@,
        ) && entries(log@) == e0 + self.encoder_written(m, x@, dump@) by {
            assert(parts[0]@ == self.lateral(m, x@, 0));
            assert(parts[1]@ == self.lateral(m, x@, 1));
            assert(parts[2]@ == self.lateral(m, x@, 2));
            assert(imgs(out@) =~= self.encoded(m, x@));
            let a = self.backbone_written(m, x@, "full"@, dump@);
            let b = dump@.written("half_input"@, halved(m, x@));
            let c = dump@.written("norm_input"@, x@);
            let d = self.backbone_written(m, halved(m, x@), "half"@, dump@);
            let e = self.laterals_written(m, x@, dump@, 4);
            let f = dump@.written("cxt_x4"@, self.context(m, x@));
            assert(e1 == e0 + a);
            assert(e2 == e1 + b);
            assert(e3 == e2 + c);
            assert(e4 == e3 + d);
            assert(e5 == e4 + e);
            assert(entries(log@) == e5 + f);
            assert(e0 + a + b + c + d + e + f =~= e0 + (a + b + c + d + e + f));
        }
        out
    }
}

} // verus!
