//! The pass through the whole network.

use crate::conv::{conv1x1, conv1x1_fits, conv1x1_spec};
use crate::dump::{entries, opt_text, texts, Dump, Entry, Record, Wish};
use crate::encoder::cat2;
use crate::layout::{cat_two, get_patches_batch, imgs, patches_fits, patches_spec, steps};
use crate::model::Rmbg;
use crate::pointwise::{add_inplace, added, attended, mul_broadcast_channel_inplace};
use crate::resize::{resize_bilinear, resize_fits, resize_spec};
use crate::scalar::{computes, Arith, Scalar};
use crate::tensor::{dims_fit, Img, Tensor};
use crate::words::{number_text, numbered};
use vstd::prelude::*;

verus! {

/// The image cut into tiles of `h` by `w` positions, stacked along the planes.
pub open spec fn tiled<T>(m: Arith<T>, x: Img<T>, h: int, w: int) -> Img<T> {
    resize_spec(m, patches_spec(m, x, h, w), h, w, true)
}

/// Number of planes of the tiles.
pub open spec fn tile_planes(c: int, xh: int, xw: int, h: int, w: int) -> int {
    c * steps(xh, h) * steps(xw, w)
}

/// The image can be cut into tiles of `h` by `w` positions.
pub open spec fn tiles_fit(c: int, xh: int, xw: int, h: int, w: int) -> bool {
    &&& patches_fits(c, xh, xw, h, w)
    &&& resize_fits(tile_planes(c, xh, xw, h, w), h, w, h, w)
}

/// Cuts the image into tiles of `oh` by `ow` positions.
pub fn ipt_input<T: Scalar>(x: &Tensor<T>, oh: usize, ow: usize) -> (r: Tensor<T>)
    requires
        x@.wf(),
        tiles_fit(x.c as int, x.h as int, x.w as int, oh as int, ow as int),
    ensures
        r@.wf(),
        r.c == tile_planes(x.c as int, x.h as int, x.w as int, oh as int, ow as int) && r.h == oh
            && r.w == ow,
        forall|m: Arith<T>| #[trigger] computes(m) ==> r@ == tiled(m, x@, oh as int, ow as int),
{
    let tiles = get_patches_batch(x, oh, ow);
    resize_bilinear(&tiles, oh, ow, true)
}

// ---- one scale of the decoder ---------------------------------------------------------

impl<T: Scalar> Rmbg<T> {
    /// What scale `k` makes of the image, at the size `h` by `w`.
    #[verifier::opaque]
    pub open spec fn side(self, m: Arith<T>, x: Img<T>, k: int, h: int, w: int) -> Img<T> {
        self.decoder.ipt@[k].out(m, tiled(m, x, h, w))
    }

    /// What block `k` makes of `p` and the image.
    #[verifier::opaque]
    pub open spec fn refined(self, m: Arith<T>, x: Img<T>, k: int, p: Img<T>) -> Img<T> {
        self.decoder.blocks@[k].out(m, cat2(p, self.side(m, x, k + 1, p.h, p.w)))
    }

    /// What is written of block `k`.
    #[verifier::opaque]
    pub open spec fn block_written(
        self,
        m: Arith<T>,
        x: Img<T>,
        k: int,
        p: Img<T>,
        dump: Wish,
    ) -> Seq<Entry<T>> {
        dump.written("ipt_blk"@ + number_text(k + 2), self.side(m, x, k + 1, p.h, p.w))
            + dump.written("decoder_block"@ + number_text(k + 1), self.refined(m, x, k, p))
    }

    /// Block `k` is defined on `c` planes of `h` by `w` positions, for an image of `xc`
    /// planes of `xh` by `xw`.
    #[verifier::opaque]
    pub open spec fn block_fits(
        self,
        xc: int,
        xh: int,
        xw: int,
        k: int,
        c: int,
        h: int,
        w: int,
    ) -> bool {
        let ipt = self.decoder.ipt@[k + 1];
        &&& tiles_fit(xc, xh, xw, h, w)
        &&& ipt.fits(tile_planes(xc, xh, xw, h, w), h, w)
        &&& dims_fit(c + ipt.oc, h, w)
        &&& self.decoder.blocks@[k].fits(c + ipt.oc, h, w)
    }

    fn refine(
        &self,
        x: &Tensor<T>,
        k: usize,
        p: &Tensor<T>,
        dump: &Dump,
        log: &mut Vec<Record<T>>,
    ) -> (r: Tensor<T>)
        requires
            x@.wf(),
            p@.wf(),
            k < 4,
            self.decoder.complete(),
            self.block_fits(
                x.c as int,
                x.h as int,
                x.w as int,
                k as int,
                p.c as int,
                p.h as int,
                p.w as int,
            ),
        ensures
            r@.wf(),
            r.c == self.decoder.blocks@[k as int].oc && r.h == p.h && r.w == p.w,
            forall|m: Arith<T>| #[trigger]
                computes(m) ==> {
                    &&& r@ == self.refined(m, x@, k as int, p@)
                    &&& entries(final(log)@) == entries(old(log)@) + self.block_written(
                        m,
                        x@,
                        k as int,
                        p@,
                        dump@,
                    )
                },
    {
        reveal(Rmbg::side);
        reveal(Rmbg::refined);
        reveal(Rmbg::block_written);
        reveal(Rmbg::block_fits);
        let ghost e0 = entries(log@);
        let tiles = ipt_input(x, p.h, p.w);
        let i = self.decoder.ipt[k + 1].apply(&tiles);
        let iname = numbered("ipt_blk", k + 2, "");
        let bname = numbered("decoder_block", k + 1, "");
        proof {
            reveal_strlit("");
            assert(iname@ =~= "ipt_blk"@ + number_text(k + 2));
            assert(bname@ =~= "decoder_block"@ + number_text(k + 1));
        }
        dump.write_wanted(iname.as_str(), &i, log);
        let both = cat_two(p, &i);
        let r = self.decoder.blocks[k].apply(&both);
        dump.write_wanted(bname.as_str(), &r, log);
        assert forall|m: Arith<T>| #[trigger] computes(m) implies entries(log@) == e0
            + self.block_written(m, x@, k as int, p@, dump@) by {
            let a = dump@.written(iname@, i@);
            let b = dump@.written(bname@, r@);
            assert(e0 + a + b =~= e0 + (a + b));
        }
        r
    }

    /// The prediction of scale `k` from what its block makes.
    #[verifier::opaque]
    pub open spec fn predicted(self, m: Arith<T>, k: int, p: Img<T>) -> Img<T> {
        let w = self.decoder.ms@[k - 1].0@;
        conv1x1_spec(m, p, w, 1, w.len() as int, Some(self.decoder.ms@[k - 1].1@))
    }

    /// The prediction of scale `k` is defined.
    #[verifier::opaque]
    pub open spec fn prediction_fits(self, k: int, c: int, h: int, w: int) -> bool {
        let n = self.decoder.ms@[k - 1].0@.len() as int;
        conv1x1_fits(c, h, w, n, 1, n, Some(self.decoder.ms@[k - 1].1@.len() as int))
    }

    fn predict(&self, k: usize, p: &Tensor<T>) -> (r: Tensor<T>)
        requires
            p@.wf(),
            1 <= k < 4,
            self.decoder.complete(),
            self.prediction_fits(k as int, p.c as int, p.h as int, p.w as int),
        ensures
            r@.wf(),
            forall|m: Arith<T>| #[trigger] computes(m) ==> r@ == self.predicted(m, k as int, p@),
    {
        reveal(Rmbg::predicted);
        reveal(Rmbg::prediction_fits);
        let pair = &self.decoder.ms[k - 1];
        conv1x1(p, &pair.0, 1, pair.0.len(), Some(pair.1.as_slice()))
    }

    /// What scale `k` hands to the finer one: the positions that count, brought to the size
    /// of the features `lat` of the finer scale and added to them.
    #[verifier::opaque]
    pub open spec fn passed(
        self,
        m: Arith<T>,
        k: int,
        p: Img<T>,
        lat: Img<T>,
        lw: Seq<T>,
        lb: Seq<T>,
    ) -> Img<T> {
        let counted = attended(m, p, self.decoder.gdt@[k - 1].out(m, p).data);
        let up = resize_spec(m, counted, lat.h, lat.w, true);
        Img {
            c: up.c,
            h: up.h,
            w: up.w,
            data: added(m, up.data, conv1x1_spec(m, lat, lw, lat.c, lat.c, Some(lb)).data),
        }
    }

    /// Scale `k` can hand on to the finer one.
    #[verifier::opaque]
    pub open spec fn pass_fits(
        self,
        k: int,
        c: int,
        h: int,
        w: int,
        lc: int,
        lh: int,
        lw: int,
        wlen: int,
        blen: int,
    ) -> bool {
        &&& self.decoder.gdt@[k - 1].fits(c, h, w)
        &&& resize_fits(c, h, w, lh, lw)
        &&& conv1x1_fits(lc, lh, lw, wlen, lc, lc, Some(blen))
        &&& c * (lh * lw) == lc * (lh * lw)
    }

    fn pass_on(&self, k: usize, p: &Tensor<T>, lat: &Tensor<T>, lw: &Vec<T>, lb: &Vec<T>) -> (r:
        Tensor<T>)
        requires
            p@.wf(),
            lat@.wf(),
            1 <= k < 4,
            self.decoder.complete(),
            self.pass_fits(
                k as int,
                p.c as int,
                p.h as int,
                p.w as int,
                lat.c as int,
                lat.h as int,
                lat.w as int,
                lw@.len() as int,
                lb@.len() as int,
            ),
        ensures
            r@.wf(),
            r.c == p.c && r.h == lat.h && r.w == lat.w,
            forall|m: Arith<T>| #[trigger]
                computes(m) ==> r@ == self.passed(m, k as int, p@, lat@, lw@, lb@),
    {
        reveal(Rmbg::passed);
        reveal(Rmbg::pass_fits);
        let attn = self.decoder.gdt[k - 1].apply(p);
        let mut counted = p.clone();
        mul_broadcast_channel_inplace(&mut counted, &attn);
        let mut up = resize_bilinear(&counted, lat.h, lat.w, true);
        let side = conv1x1(lat, lw, lat.c, lat.c, Some(lb.as_slice()));
        add_inplace(&mut up, &side);
        up
    }
}

// ---- all scales -----------------------------------------------------------------------

/// What the decoder makes on the way, from the coarsest scale to the finest.
#[verifier::ext_equal]
pub struct Way<T> {
    pub start: Img<T>,
    pub p4: Img<T>,
    pub in3: Img<T>,
    pub p3: Img<T>,
    pub in2: Img<T>,
    pub p2: Img<T>,
    pub in1: Img<T>,
    pub p1: Img<T>,
}

impl<T: Scalar> Rmbg<T> {
    /// What the decoder makes on the way of what the encoder made.
    #[verifier::opaque]
    pub open spec fn way(self, m: Arith<T>, x: Img<T>, enc: Seq<Img<T>>) -> Way<T> {
        let d = self.decoder;
        let start = self.squeeze.out(m, enc[3]);
        let p4 = self.refined(m, x, 3, start);
        let in3 = self.passed(m, 3, p4, enc[2], d.lat4@, d.lat4b@);
        let p3 = self.refined(m, x, 2, in3);
        let in2 = self.passed(m, 2, p3, enc[1], d.lat3@, d.lat3b@);
        let p2 = self.refined(m, x, 1, in2);
        let in1 = self.passed(m, 1, p2, enc[0], d.lat2@, d.lat2b@);
        let p1 = self.refined(m, x, 0, in1);
        Way { start, p4, in3, p3, in2, p2, in1, p1 }
    }

    /// The mask before the sigmoid, from what the decoder makes last.
    #[verifier::opaque]
    pub open spec fn finished(self, m: Arith<T>, x: Img<T>, p1: Img<T>) -> Img<T> {
        let all = cat2(resize_spec(m, p1, x.h, x.w, true), self.side(m, x, 0, x.h, x.w));
        conv1x1_spec(
            m,
            all,
            self.decoder.conv_out1_w@,
            1,
            all.c,
            Some(self.decoder.conv_out1_b@),
        )
    }

    /// The mask before the sigmoid.
    pub open spec fn out(self, m: Arith<T>, x: Img<T>) -> Img<T> {
        self.finished(m, x, self.way(m, x, self.encoded(m, x)).p1)
    }

    /// What is written from the start of the decoder to its last block.
    #[verifier::opaque]
    pub open spec fn way_written(
        self,
        m: Arith<T>,
        x: Img<T>,
        enc: Seq<Img<T>>,
        dump: Wish,
    ) -> Seq<Entry<T>> {
        let way = self.way(m, x, enc);
        dump.written("squeeze_module"@, way.start) + self.block_written(m, x, 3, way.start, dump)
            + self.block_written(m, x, 2, way.in3, dump) + self.block_written(
            m,
            x,
            1,
            way.in2,
            dump,
        ) + self.block_written(m, x, 0, way.in1, dump)
    }

    /// What is written behind the last block.
    #[verifier::opaque]
    pub open spec fn end_written(
        self,
        m: Arith<T>,
        x: Img<T>,
        enc: Seq<Img<T>>,
        dump: Wish,
    ) -> Seq<Entry<T>> {
        let way = self.way(m, x, enc);
        let out = self.finished(m, x, way.p1);
        dump.written("ipt_blk1"@, self.side(m, x, 0, x.h, x.w)) + dump.written(
            "conv_out1"@,
            out,
        ) + dump.written("pred0"@, self.predicted(m, 3, way.p4)) + dump.written(
            "pred1"@,
            self.predicted(m, 2, way.p3),
        ) + dump.written("pred2"@, self.predicted(m, 1, way.p2)) + dump.written("pred3"@, out)
    }

    /// What is written of the pass through the network.
    pub open spec fn written(self, m: Arith<T>, x: Img<T>, dump: Wish) -> Seq<Entry<T>> {
        let enc = self.encoded(m, x);
        dump.written("input"@, x) + self.encoder_written(m, x, dump) + self.way_written(
            m,
            x,
            enc,
            dump,
        ) + self.end_written(m, x, enc, dump)
    }

    /// Number of planes that block `k` makes.
    pub open spec fn block_planes(self, k: int) -> int {
        self.decoder.blocks@[k].oc as int
    }

    /// Scale `k`, with its prediction and what it hands on, is defined on `c` planes.
    #[verifier::opaque]
    pub open spec fn scale_fits(
        self,
        xc: int,
        xh: int,
        xw: int,
        k: int,
        c: int,
        wlen: int,
        blen: int,
    ) -> bool {
        let (h, w) = (self.size_at(xh, k) as int, self.size_at(xw, k) as int);
        let (lh, lw) = (self.size_at(xh, k - 1) as int, self.size_at(xw, k - 1) as int);
        &&& self.block_fits(xc, xh, xw, k, c, h, w)
        &&& self.prediction_fits(k, self.block_planes(k), h, w)
        &&& self.pass_fits(
            k,
            self.block_planes(k),
            h,
            w,
            Rmbg::<T>::enc_planes(k - 1),
            lh,
            lw,
            wlen,
            blen,
        )
    }

    /// The end of the decoder is defined.
    #[verifier::opaque]
    pub open spec fn end_fits(self, xc: int, xh: int, xw: int) -> bool {
        let c = self.block_planes(0);
        let ipt = self.decoder.ipt@[0];
        let all = c + ipt.oc;
        &&& self.block_fits(
            xc,
            xh,
            xw,
            0,
            self.block_planes(1),
            self.size_at(xh, 0) as int,
            self.size_at(xw, 0) as int,
        )
        &&& resize_fits(c, self.size_at(xh, 0) as int, self.size_at(xw, 0) as int, xh, xw)
        &&& tiles_fit(xc, xh, xw, xh, xw)
        &&& ipt.fits(tile_planes(xc, xh, xw, xh, xw), xh, xw)
        &&& dims_fit(all, xh, xw)
        &&& conv1x1_fits(
            all,
            xh,
            xw,
            self.decoder.conv_out1_w@.len() as int,
            1,
            all,
            Some(self.decoder.conv_out1_b@.len() as int),
        )
    }

    /// The decoder is defined on tensors of these dimensions.
    #[verifier::opaque]
    pub open spec fn decoder_fits(self, c: int, h: int, w: int) -> bool {
        let d = self.decoder;
        &&& d.complete()
        &&& self.squeeze.fits(5760, self.size_at(h, 3) as int, self.size_at(w, 3) as int)
        &&& self.scale_fits(
            c,
            h,
            w,
            3,
            self.squeeze.oc as int,
            d.lat4@.len() as int,
            d.lat4b@.len() as int,
        )
        &&& self.scale_fits(
            c,
            h,
            w,
            2,
            self.block_planes(3),
            d.lat3@.len() as int,
            d.lat3b@.len() as int,
        )
        &&& self.scale_fits(
            c,
            h,
            w,
            1,
            self.block_planes(2),
            d.lat2@.len() as int,
            d.lat2b@.len() as int,
        )
        &&& self.end_fits(c, h, w)
    }

    /// The network is defined on tensors of these dimensions.
    pub open spec fn fits(self, c: int, h: int, w: int) -> bool {
        self.encoder_fits(c, h, w) && self.decoder_fits(c, h, w)
    }

    fn finish(&self, x: &Tensor<T>, p1: &Tensor<T>, dump: &Dump, log: &mut Vec<Record<T>>) -> (r:
        Tensor<T>)
        requires
            x@.wf(),
            p1@.wf(),
            self.decoder.complete(),
            self.end_fits(x.c as int, x.h as int, x.w as int),
            p1.c == self.block_planes(0),
            p1.h == self.size_at(x.h as int, 0) && p1.w == self.size_at(x.w as int, 0),
        ensures
            r@.wf(),
            r.c == 1 && r.h == x.h && r.w == x.w,
            forall|m: Arith<T>| #[trigger]
                computes(m) ==> {
                    &&& r@ == self.finished(m, x@, p1@)
                    &&& entries(final(log)@) == entries(old(log)@) + dump@.written(
                        "ipt_blk1"@,
                        self.side(m, x@, 0, x.h as int, x.w as int),
                    ) + dump@.written("conv_out1"@, r@)
                },
    {
        reveal(Rmbg::finished);
        reveal(Rmbg::end_fits);
        reveal(Rmbg::side);
        let up = resize_bilinear(p1, x.h, x.w, true);
        let tiles = ipt_input(x, x.h, x.w);
        let i = self.decoder.ipt[0].apply(&tiles);
        dump.write_wanted("ipt_blk1", &i, log);
        let all = cat_two(&up, &i);
        let out = conv1x1(
            &all,
            &self.decoder.conv_out1_w,
            1,
            all.c,
            Some(self.decoder.conv_out1_b.as_slice()),
        );
        dump.write_wanted("conv_out1", &out, log);
        out
    }

    fn scale(
        &self,
        x: &Tensor<T>,
        k: usize,
        p: &Tensor<T>,
        lat: &Tensor<T>,
        lw: &Vec<T>,
        lb: &Vec<T>,
        dump: &Dump,
        log: &mut Vec<Record<T>>,
    ) -> (r: (Tensor<T>, Tensor<T>))
        requires
            x@.wf(),
            p@.wf(),
            lat@.wf(),
            1 <= k < 4,
            self.decoder.complete(),
            self.scale_fits(
                x.c as int,
                x.h as int,
                x.w as int,
                k as int,
                p.c as int,
                lw@.len() as int,
                lb@.len() as int,
            ),
            p.h == self.size_at(x.h as int, k as int) && p.w == self.size_at(
                x.w as int,
                k as int,
            ),
            lat.c == Rmbg::<T>::enc_planes(k - 1),
            lat.h == self.size_at(x.h as int, k - 1) && lat.w == self.size_at(x.w as int, k - 1),
        ensures
            r.0@.wf(),
            r.1@.wf(),
            r.0.c == self.block_planes(k as int) && r.0.h == lat.h && r.0.w == lat.w,
            forall|m: Arith<T>| #[trigger]
                computes(m) ==> {
                    &&& r.0@ == self.passed(
                        m,
                        k as int,
                        self.refined(m, x@, k as int, p@),
                        lat@,
                        lw@,
                        lb@,
                    )
                    &&& r.1@ == self.predicted(m, k as int, self.refined(m, x@, k as int, p@))
                    &&& entries(final(log)@) == entries(old(log)@) + self.block_written(
                        m,
                        x@,
                        k as int,
                        p@,
                        dump@,
                    )
                },
    {
        reveal(Rmbg::scale_fits);
        let q = self.refine(x, k, p, dump, log);
        let pred = self.predict(k, &q);
        let next = self.pass_on(k, &q, lat, lw, lb);
        (next, pred)
    }

    fn descend(
        &self,
        x: &Tensor<T>,
        enc: &Vec<Tensor<T>>,
        dump: &Dump,
        log: &mut Vec<Record<T>>,
    ) -> (r: (Tensor<T>, Tensor<T>, Tensor<T>, Tensor<T>))
        requires
            x@.wf(),
            self.decoder_fits(x.c as int, x.h as int, x.w as int),
            enc@.len() == 4,
            forall|s: int|
                0 <= s < 4 ==> (#[trigger] enc@[s])@.wf() && enc@[s].c == Rmbg::<T>::enc_planes(s)
                    && enc@[s].h == self.size_at(x.h as int, s) && enc@[s].w == self.size_at(
                    x.w as int,
                    s,
                ),
        ensures
            self.decoder.complete(),
            r.0@.wf(),
            r.0.c == self.block_planes(0),
            r.0.h == self.size_at(x.h as int, 0) && r.0.w == self.size_at(x.w as int, 0),
            forall|m: Arith<T>| #[trigger]
                computes(m) ==> {
                    let way = self.way(m, x@, imgs(enc@));
                    &&& r.0@ == way.p1
                    &&& r.1@ == self.predicted(m, 3, way.p4)
                    &&& r.2@ == self.predicted(m, 2, way.p3)
                    &&& r.3@ == self.predicted(m, 1, way.p2)
                    &&& entries(final(log)@) == entries(old(log)@) + self.way_written(
                        m,
                        x@,
                        imgs(enc@),
                        dump@,
                    )
                },
    {
        reveal(Rmbg::decoder_fits);
        let d = &self.decoder;
        let ghost e0 = entries(log@);
        let start = self.squeeze.apply(&enc[3]);
        dump.write_wanted("squeeze_module", &start, log);
        let ghost e1 = entries(log@);
        let (in3, m4) = self.scale(x, 3, &start, &enc[2], &d.lat4, &d.lat4b, dump, log);
        let ghost e2 = entries(log@);
        let (in2, m3) = self.scale(x, 2, &in3, &enc[1], &d.lat3, &d.lat3b, dump, log);
        let ghost e3 = entries(log@);
        let (in1, m2) = self.scale(x, 1, &in2, &enc[0], &d.lat2, &d.lat2b, dump, log);
        let ghost e4 = entries(log@);
        assert(self.block_fits(
            x.c as int,
            x.h as int,
            x.w as int,
            0,
            in1.c as int,
            in1.h as int,
            in1.w as int,
        )) by {
            reveal(Rmbg::end_fits);
        }
        let p1 = self.refine(x, 0, &in1, dump, log);
        let ghost e5 = entries(log@);
        assert forall|m: Arith<T>| #[trigger] computes(m) implies {
            let way = self.way(m, x@, imgs(enc@));
            &&& p1@ == way.p1
            &&& m4@ == self.predicted(m, 3, way.p4)
            &&& m3@ == self.predicted(m, 2, way.p3)
            &&& m2@ == self.predicted(m, 1, way.p2)
            &&& e5 == e0 + self.way_written(m, x@, imgs(enc@), dump@)
        } by {
            reveal(Rmbg::way);
            reveal(Rmbg::way_written);
            let v = imgs(enc@);
            assert(v[0] == enc@[0]@ && v[1] == enc@[1]@ && v[2] == enc@[2]@ && v[3] == enc@[3]@);
            let a = dump@.written("squeeze_module"@, start@);
            let b = self.block_written(m, x@, 3, start@, dump@);
            let c = self.block_written(m, x@, 2, in3@, dump@);
            let f = self.block_written(m, x@, 1, in2@, dump@);
            let g = self.block_written(m, x@, 0, in1@, dump@);
            assert(e1 == e0 + a);
            assert(e2 == e1 + b);
            assert(e3 == e2 + c);
            assert(e4 == e3 + f);
            assert(e5 == e4 + g);
            assert(e0 + a + b + c + f + g =~= e0 + (a + b + c + f + g));
        }
        (p1, m4, m3, m2)
    }

    /// Decodes what the encoder made of an image.
    fn decode(
        &self,
        x: &Tensor<T>,
        enc: &Vec<Tensor<T>>,
        dump: &Dump,
        log: &mut Vec<Record<T>>,
    ) -> (r: Tensor<T>)
        requires
            x@.wf(),
            self.decoder_fits(x.c as int, x.h as int, x.w as int),
            enc@.len() == 4,
            forall|s: int|
                0 <= s < 4 ==> (#[trigger] enc@[s])@.wf() && enc@[s].c == Rmbg::<T>::enc_planes(s)
                    && enc@[s].h == self.size_at(x.h as int, s) && enc@[s].w == self.size_at(
                    x.w as int,
                    s,
                ),
        ensures
            r@.wf(),
            r.c == 1 && r.h == x.h && r.w == x.w,
            forall|m: Arith<T>| #[trigger]
                computes(m) ==> {
                    &&& r@ == self.finished(m, x@, self.way(m, x@, imgs(enc@)).p1)
                    &&& entries(final(log)@) == entries(old(log)@) + self.way_written(
                        m,
                        x@,
                        imgs(enc@),
                        dump@,
                    ) + self.end_written(m, x@, imgs(enc@), dump@)
                },
    {
        let ghost e0 = entries(log@);
        let (p1, m4, m3, m2) = self.descend(x, enc, dump, log);
        let ghost e1 = entries(log@);
        assert(self.end_fits(x.c as int, x.h as int, x.w as int)) by {
            reveal(Rmbg::decoder_fits);
        }
        let out = self.finish(x, &p1, dump, log);
        dump.write_wanted("pred0", &m4, log);
        dump.write_wanted("pred1", &m3, log);
        dump.write_wanted("pred2", &m2, log);
        dump.write_wanted("pred3", &out, log);
        assert forall|m: Arith<T>| #[trigger] computes(m) implies entries(log@) == e1
            + self.end_written(m, x@, imgs(enc@), dump@) by {
            reveal(Rmbg::end_written);
            let a = dump@.written("ipt_blk1"@, self.side(m, x@, 0, x.h as int, x.w as int));
            let b = dump@.written("conv_out1"@, out@);
            let c = dump@.written("pred0"@, m4@);
            let f = dump@.written("pred1"@, m3@);
            let g = dump@.written("pred2"@, m2@);
            let h = dump@.written("pred3"@, out@);
            assert(e1 + a + b + c + f + g + h =~= e1 + (a + b + c + f + g + h));
        }
        out
    }
}

/// Passes an image through the network and gives the mask before the sigmoid. What is
/// asked for of the tensors on the way is added to `log`.
pub fn forward_dump<T: Scalar>(
    rmbg: &Rmbg<T>,
    input: &Tensor<T>,
    dump_dir: &Option<String>,
    steps: &[String],
    log: &mut Vec<Record<T>>,
) -> (r: Tensor<T>)
    requires
        input@.wf(),
        rmbg.fits(input.c as int, input.h as int, input.w as int),
    ensures
        r@.wf(),
        r.c == 1 && r.h == input.h && r.w == input.w,
        forall|m: Arith<T>| #[trigger]
            computes(m) ==> {
                &&& r@ == rmbg.out(m, input@)
                &&& entries(final(log)@) == entries(old(log)@) + rmbg.written(
                    m,
                    input@,
                    Wish { dir: opt_text(*dump_dir), steps: texts(steps@) },
                )
            },
{
    let dir = match dump_dir {
        Some(d) => Some(d.clone()),
        None => None,
    };
    let dump = Dump { dir, steps: cloned_texts(steps) };
    let ghost e0 = entries(log@);
    dump.write_wanted("input", input, log);
    let enc = rmbg.forward_enc(input, &dump, log);
    let out = rmbg.decode(input, &enc, &dump, log);
    assert forall|m: Arith<T>| #[trigger] computes(m) implies entries(log@) == e0 + rmbg.written(
        m,
        input@,
        dump@,
    ) by {
        let a = dump@.written("input"@, input@);
        let b = rmbg.encoder_written(m, input@, dump@);
        let c = rmbg.way_written(m, input@, imgs(enc@), dump@);
        let d = rmbg.end_written(m, input@, imgs(enc@), dump@);
        assert(e0 + a + b + c + d =~= e0 + (a + b + c + d));
    }
    out
}

fn cloned_texts(s: &[String]) -> (r: Vec<String>)
    ensures
        texts(r@) == texts(s@),
{
    let mut r: Vec<String> = Vec::with_capacity(s.len());
    let mut i: usize = 0;
    while i < s.len()
        invariant
            i <= s@.len(),
            r@.len() == i,
            forall|j: int| 0 <= j < i ==> (#[trigger] r@[j])@ == s@[j]@,
        decreases s@.len() - i,
    {
        r.push(s[i].clone());
        i += 1;
    }
    assert(texts(r@) =~= texts(s@));
    r
}

} // verus!
