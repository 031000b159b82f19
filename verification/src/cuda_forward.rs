//! Planning the pass through the network.

use crate::cuda::{
    dump_plan, extends, keeps, no_tensor, provided, upload_plan, CudaModel, DTensor, Dw, Mark,
    Plan, Source, DW,
};
use crate::cuda_net::{
    patch_embed_plan, swin_stage_plan, CudaDecoder, CudaWeights,
};
use crate::cuda_ops::{
    add_inplace_plan, cat_plan, conv_plan, mul_broadcast_channel_plan, resize_bilinear_plan,
    tile_patches_plan, tokens_to_nchw_plan,
};
use crate::dump::{Dump, Wish};
use crate::words::{joined, number_text, numbered};
use vstd::prelude::*;

verus! {

// ---- the backbone ---------------------------------------------------------------------

/// How far the backbone has come: the plan, the features of the stages so far, and what goes
/// into the next stage.
#[verifier::ext_equal]
pub struct Progress {
    pub plan: Plan,
    pub outs: Seq<DTensor>,
    pub cur: DTensor,
    pub h: usize,
    pub w: usize,
}

/// The first `n` stages.
pub open spec fn stages_plan(
    g: Progress,
    wts: &CudaWeights,
    tag: Seq<char>,
    dump: Wish,
    n: int,
) -> Progress
    decreases n,
{
    if n <= 0 {
        g
    } else {
        let g = stages_plan(g, wts, tag, dump, n - 1);
        let s = n - 1;
        let st = swin_stage_plan(
            g.plan,
            &wts.stages@[s],
            wts,
            s as usize,
            g.cur,
            g.h,
            g.w,
            tag,
            dump,
        );
        let (p, out) = tokens_to_nchw_plan(st.plan, st.out, g.h, g.w);
        match st.down {
            Some(down) => Progress {
                plan: p,
                outs: g.outs.push(out),
                cur: down,
                h: st.oh,
                w: st.ow,
            },
            None => Progress { plan: p, outs: g.outs.push(out), cur: g.cur, h: g.h, w: g.w },
        }
    }
}

/// The features of the four stages, as images.
#[verifier::opaque]
pub open spec fn backbone_plan(
    p: Plan,
    wts: &CudaWeights,
    input: DTensor,
    tag: Seq<char>,
    dump: Wish,
) -> (Plan, Seq<DTensor>) {
    if wts.stages@.len() < 4 {
        (Plan::Broken, seq![no_tensor(), no_tensor(), no_tensor(), no_tensor()])
    } else {
        let (p, tokens, h, w) = patch_embed_plan(p, wts, input);
        let p = dump_plan(p, dump, tag + "_patch_embed_norm"@, tokens);
        let g = stages_plan(
            Progress { plan: p, outs: Seq::empty(), cur: tokens, h, w },
            wts,
            tag,
            dump,
            4,
        );
        (g.plan, g.outs)
    }
}

impl CudaModel {
    /// The features of the four stages, as images.
    pub fn backbone_once(
        &mut self,
        wts: &CudaWeights,
        input: &DTensor,
        tag: &str,
        dump: &Dump,
    ) -> (r: Vec<DTensor>)
        ensures
            (final(self)@, r@) == backbone_plan(old(self)@, wts, *input, tag@, dump@),
            r@.len() == 4,
            final(self).weights == old(self).weights,
    {
        proof {
            reveal(backbone_plan);
        }
        if wts.stages.len() < 4 {
            self.must(false);
            let none = DTensor { c: 0, h: 0, w: 0, buf: None };
            return vec![none, none, none, none];
        }
        let (tokens, h0, w0) = self.patch_embed(wts, input);
        let name = joined(tag, "_patch_embed_norm");
        self.dump_named(dump, name.as_str(), &tokens);
        let mut outs: Vec<DTensor> = Vec::new();
        let mut cur = tokens;
        let mut h = h0;
        let mut w = w0;
        let ghost g = Progress { plan: self@, outs: Seq::empty(), cur, h, w };
        assert(outs@ =~= g.outs);
        let mut s: usize = 0;
        while s < 4
            invariant
                self.weights == old(self).weights,
                s <= 4,
                wts.stages@.len() >= 4,
                outs@.len() == s,
                stages_plan(g, wts, tag@, dump@, s as int) == (Progress {
                    plan: self@,
                    outs: outs@,
                    cur,
                    h,
                    w,
                }),
            decreases 4 - s,
        {
            let (out, down, dh, dw) = self.swin_stage(
                &wts.stages[s],
                wts,
                s,
                &cur,
                h,
                w,
                tag,
                dump,
            );
            outs.push(self.tokens_to_nchw(&out, h, w));
            if let Some(d) = down {
                cur = d;
                h = dh;
                w = dw;
            }
            s += 1;
        }
        outs
    }
}

// ---- the encoder ----------------------------------------------------------------------

/// The features of the image and of the image at half its size, one behind the other.
#[verifier::opaque]
pub open spec fn lateral_plan(p: Plan, full: DTensor, half: DTensor) -> (Plan, DTensor) {
    let (p, up) = resize_bilinear_plan(p, half, full.h, full.w, true);
    cat_plan(p, seq![full, up])
}

/// The features of all stages together, at the size of the last one.
#[verifier::opaque]
pub open spec fn context_plan(p: Plan, a: DTensor, b: DTensor, c: DTensor, d: DTensor) -> (
    Plan,
    DTensor,
) {
    let (p, ra) = resize_bilinear_plan(p, a, d.h, d.w, true);
    let (p, rb) = resize_bilinear_plan(p, b, d.h, d.w, true);
    let (p, rc) = resize_bilinear_plan(p, c, d.h, d.w, true);
    cat_plan(p, seq![ra, rb, rc, d])
}

/// The features that go into the decoder: the laterals of the first three stages and the
/// context.
#[verifier::opaque]
pub open spec fn forward_enc_plan(p: Plan, w: &CudaWeights, input: DTensor, dump: Wish) -> (
    Plan,
    Seq<DTensor>,
) {
    let (p, full) = backbone_plan(p, w, input, "full"@, dump);
    let (p, half_in) = resize_bilinear_plan(p, input, input.h / 2, input.w / 2, true);
    let p = dump_plan(p, dump, "half_input"@, half_in);
    let p = dump_plan(p, dump, "norm_input"@, input);
    let (p, half) = backbone_plan(p, w, half_in, "half"@, dump);
    let (p, a) = lateral_plan(p, full[0], half[0]);
    let (p, b) = lateral_plan(p, full[1], half[1]);
    let (p, c) = lateral_plan(p, full[2], half[2]);
    let (p, d) = lateral_plan(p, full[3], half[3]);
    let p = dump_plan(p, dump, "bb_stage0"@, a);
    let p = dump_plan(p, dump, "bb_stage1"@, b);
    let p = dump_plan(p, dump, "bb_stage2"@, c);
    let p = dump_plan(p, dump, "bb_stage3"@, d);
    let (p, cxt) = context_plan(p, a, b, c, d);
    (dump_plan(p, dump, "cxt_x4"@, cxt), seq![a, b, c, cxt])
}

impl CudaModel {
    fn lateral(&mut self, full: &DTensor, half: &DTensor) -> (r: DTensor)
        ensures
            (final(self)@, r) == lateral_plan(old(self)@, *full, *half),
            final(self).weights == old(self).weights,
    {
        proof {
            reveal(lateral_plan);
        }
        let up = self.resize_bilinear(half, full.h, full.w, true);
        let parts: Vec<DTensor> = vec![*full, up];
        assert(parts@ =~= seq![*full, up]);
        self.cat(&parts)
    }

    fn context(&mut self, a: &DTensor, b: &DTensor, c: &DTensor, d: &DTensor) -> (r: DTensor)
        ensures
            (final(self)@, r) == context_plan(old(self)@, *a, *b, *c, *d),
            final(self).weights == old(self).weights,
    {
        proof {
            reveal(context_plan);
        }
        let ra = self.resize_bilinear(a, d.h, d.w, true);
        let rb = self.resize_bilinear(b, d.h, d.w, true);
        let rc = self.resize_bilinear(c, d.h, d.w, true);
        let parts: Vec<DTensor> = vec![ra, rb, rc, *d];
        assert(parts@ =~= seq![ra, rb, rc, *d]);
        self.cat(&parts)
    }

    /// The features that go into the decoder.
    pub fn forward_enc(&mut self, w: &CudaWeights, input: &DTensor, dump: &Dump) -> (r: Vec<
        DTensor,
    >)
        ensures
            (final(self)@, r@) == forward_enc_plan(old(self)@, w, *input, dump@),
            r@.len() == 4,
            final(self).weights == old(self).weights,
    {
        proof {
            reveal(forward_enc_plan);
        }
        let full = self.backbone_once(w, input, "full", dump);
        let half_in = self.resize_bilinear(input, input.h / 2, input.w / 2, true);
        self.dump_named(dump, "half_input", &half_in);
        self.dump_named(dump, "norm_input", input);
        let half = self.backbone_once(w, &half_in, "half", dump);
        let a = self.lateral(&full[0], &half[0]);
        let b = self.lateral(&full[1], &half[1]);
        let c = self.lateral(&full[2], &half[2]);
        let d = self.lateral(&full[3], &half[3]);
        self.dump_named(dump, "bb_stage0", &a);
        self.dump_named(dump, "bb_stage1", &b);
        self.dump_named(dump, "bb_stage2", &c);
        self.dump_named(dump, "bb_stage3", &d);
        let cxt = self.context(&a, &b, &c, &d);
        self.dump_named(dump, "cxt_x4", &cxt);
        let r: Vec<DTensor> = vec![a, b, c, cxt];
        assert(r@ =~= seq![a, b, c, cxt]);
        r
    }
}

// ---- the decoder ----------------------------------------------------------------------

/// The tiles of the image, at the size of a block.
#[verifier::opaque]
pub open spec fn ipt_input_plan(p: Plan, x: DTensor, oh: usize, ow: usize) -> (Plan, DTensor) {
    let (p, tiled) = tile_patches_plan(p, x, oh, ow);
    resize_bilinear_plan(p, tiled, oh, ow, true)
}

impl CudaDecoder {
    /// Every block has what it needs.
    pub open spec fn complete(&self) -> bool {
        &&& self.ipt@.len() >= 5
        &&& self.blocks@.len() >= 4
        &&& self.ms@.len() >= 3
        &&& self.gdt@.len() >= 3
    }

    /// From the features and the image to what the last block makes.
    #[verifier::opaque]
    pub open spec fn start_plan(&self, p: Plan, x4: DTensor, x: DTensor, dump: Wish) -> (
        Plan,
        DTensor,
    ) {
        let p = dump_plan(p, dump, "squeeze_module"@, x4);
        let (p, i5_in) = ipt_input_plan(p, x, x4.h, x4.w);
        let (p, i5) = self.ipt@[4].plan(p, i5_in);
        let p = dump_plan(p, dump, "ipt_blk5"@, i5);
        let (p, cat) = cat_plan(p, seq![x4, i5]);
        let (p, p4) = self.blocks@[3].plan(p, cat);
        (dump_plan(p, dump, "decoder_block4"@, p4), p4)
    }

    /// From what block `k` makes to what block `k - 1` makes and the prediction at this size:
    /// the attention over the plane, the lateral features `e` and the tiles of the image.
    #[verifier::opaque]
    pub open spec fn descend_plan(
        &self,
        p: Plan,
        k: int,
        lat: Dw,
        lat_b: Dw,
        e: DTensor,
        x: DTensor,
        pk: DTensor,
        dump: Wish,
    ) -> (Plan, DTensor, DTensor) {
        let (w, b) = self.ms@[k - 1];
        let (p, pred) = conv_plan(p, pk, w@, b.buf, 1, false);
        let (p, attn) = self.gdt@[k - 1].plan(p, pk);
        let p = mul_broadcast_channel_plan(p, pk, attn);
        let (p, up) = resize_bilinear_plan(p, pk, e.h, e.w, true);
        let (p, side) = conv_plan(p, e, lat, lat_b.buf, 1, false);
        let (p, _) = add_inplace_plan(p, up, side);
        let (p, tiles) = ipt_input_plan(p, x, e.h, e.w);
        let (p, i) = self.ipt@[k].plan(p, tiles);
        let p = dump_plan(p, dump, "ipt_blk"@ + number_text(k + 1), i);
        let (p, cat) = cat_plan(p, seq![up, i]);
        let (p, out) = self.blocks@[k - 1].plan(p, cat);
        (dump_plan(p, dump, "decoder_block"@ + number_text(k), out), out, pred)
    }

    /// From what the first block makes to the logits. The predictions of the other scales are
    /// written here.
    #[verifier::opaque]
    pub open spec fn end_plan(
        &self,
        p: Plan,
        x: DTensor,
        p1: DTensor,
        preds: (DTensor, DTensor, DTensor),
        dump: Wish,
    ) -> (Plan, DTensor) {
        let (p, up) = resize_bilinear_plan(p, p1, x.h, x.w, true);
        let (p, tiles) = ipt_input_plan(p, x, x.h, x.w);
        let (p, i1) = self.ipt@[0].plan(p, tiles);
        let p = dump_plan(p, dump, "ipt_blk1"@, i1);
        let (p, last) = cat_plan(p, seq![up, i1]);
        let (p, out) = conv_plan(p, last, self.conv_out1_w@, self.conv_out1_b.buf, 1, false);
        let p = dump_plan(p, dump, "conv_out1"@, out);
        let p = dump_plan(p, dump, "pred0"@, preds.0);
        let p = dump_plan(p, dump, "pred1"@, preds.1);
        let p = dump_plan(p, dump, "pred2"@, preds.2);
        (dump_plan(p, dump, "pred3"@, out), out)
    }
}

/// The decoder: from the features of the image to its logits.
#[verifier::opaque]
pub open spec fn decoder_plan(
    p: Plan,
    w: &CudaWeights,
    enc: Seq<DTensor>,
    x: DTensor,
    dump: Wish,
) -> (Plan, DTensor) {
    let d = &w.dec;
    if !d.complete() {
        (Plan::Broken, no_tensor())
    } else {
        let (p, x4) = w.squeeze.plan(p, enc[3]);
        let (p, p4) = d.start_plan(p, x4, x, dump);
        let (p, p3, m4) = d.descend_plan(p, 3, d.lat4@, d.lat4b@, enc[2], x, p4, dump);
        let (p, p2, m3) = d.descend_plan(p, 2, d.lat3@, d.lat3b@, enc[1], x, p3, dump);
        let (p, p1, m2) = d.descend_plan(p, 1, d.lat2@, d.lat2b@, enc[0], x, p2, dump);
        d.end_plan(p, x, p1, (m4, m3, m2), dump)
    }
}

impl CudaDecoder {
    fn is_complete(&self) -> (r: bool)
        ensures
            r == self.complete(),
    {
        self.ipt.len() >= 5 && self.blocks.len() >= 4 && self.ms.len() >= 3 && self.gdt.len() >= 3
    }

    fn start(&self, m: &mut CudaModel, x4: &DTensor, x: &DTensor, dump: &Dump) -> (r: DTensor)
        requires
            self.complete(),
        ensures
            (final(m)@, r) == self.start_plan(old(m)@, *x4, *x, dump@),
            final(m).weights == old(m).weights,
    {
        proof {
            reveal(CudaDecoder::start_plan);
        }
        m.dump_named(dump, "squeeze_module", x4);
        let i5_in = m.ipt_input(x, x4.h, x4.w);
        let i5 = self.ipt[4].apply(m, &i5_in);
        m.dump_named(dump, "ipt_blk5", &i5);
        let parts: Vec<DTensor> = vec![*x4, i5];
        assert(parts@ =~= seq![*x4, i5]);
        let cat = m.cat(&parts);
        let p4 = self.blocks[3].apply(m, &cat);
        m.dump_named(dump, "decoder_block4", &p4);
        p4
    }

    fn descend(
        &self,
        m: &mut CudaModel,
        k: usize,
        lat: &DW,
        lat_b: &DW,
        e: &DTensor,
        x: &DTensor,
        pk: &DTensor,
        dump: &Dump,
    ) -> (r: (DTensor, DTensor))
        requires
            self.complete(),
            1 <= k <= 3,
        ensures
            (final(m)@, r.0, r.1) == self.descend_plan(
                old(m)@,
                k as int,
                lat@,
                lat_b@,
                *e,
                *x,
                *pk,
                dump@,
            ),
            final(m).weights == old(m).weights,
    {
        proof {
            reveal(CudaDecoder::descend_plan);
            reveal_strlit("");
        }
        let pred = m.conv(pk, &self.ms[k - 1].0, Some(&self.ms[k - 1].1), 1, false);
        let attn = self.gdt[k - 1].apply(m, pk);
        m.mul_broadcast_channel(pk, &attn);
        let up = m.resize_bilinear(pk, e.h, e.w, true);
        let side = m.conv(e, lat, Some(lat_b), 1, false);
        m.add_inplace(&up, &side);
        let tiles = m.ipt_input(x, e.h, e.w);
        let i = self.ipt[k].apply(m, &tiles);
        let name = numbered("ipt_blk", k + 1, "");
        assert(name@ =~= "ipt_blk"@ + number_text(k + 1));
        m.dump_named(dump, name.as_str(), &i);
        let parts: Vec<DTensor> = vec![up, i];
        assert(parts@ =~= seq![up, i]);
        let cat = m.cat(&parts);
        let out = self.blocks[k - 1].apply(m, &cat);
        let name = numbered("decoder_block", k, "");
        assert(name@ =~= "decoder_block"@ + number_text(k as int));
        m.dump_named(dump, name.as_str(), &out);
        (out, pred)
    }

    fn end(
        &self,
        m: &mut CudaModel,
        x: &DTensor,
        p1: &DTensor,
        preds: (DTensor, DTensor, DTensor),
        dump: &Dump,
    ) -> (r: DTensor)
        requires
            self.complete(),
        ensures
            (final(m)@, r) == self.end_plan(old(m)@, *x, *p1, preds, dump@),
            final(m).weights == old(m).weights,
    {
        proof {
            reveal(CudaDecoder::end_plan);
        }
        let up = m.resize_bilinear(p1, x.h, x.w, true);
        let tiles = m.ipt_input(x, x.h, x.w);
        let i1 = self.ipt[0].apply(m, &tiles);
        m.dump_named(dump, "ipt_blk1", &i1);
        let parts: Vec<DTensor> = vec![up, i1];
        assert(parts@ =~= seq![up, i1]);
        let last = m.cat(&parts);
        let out = m.conv(&last, &self.conv_out1_w, Some(&self.conv_out1_b), 1, false);
        m.dump_named(dump, "conv_out1", &out);
        m.dump_named(dump, "pred0", &preds.0);
        m.dump_named(dump, "pred1", &preds.1);
        m.dump_named(dump, "pred2", &preds.2);
        m.dump_named(dump, "pred3", &out);
        out
    }
}

impl CudaModel {
    /// The tiles of the image, at the size of a block.
    pub fn ipt_input(&mut self, x: &DTensor, oh: usize, ow: usize) -> (r: DTensor)
        ensures
            (final(self)@, r) == ipt_input_plan(old(self)@, *x, oh, ow),
            final(self).weights == old(self).weights,
    {
        proof {
            reveal(ipt_input_plan);
        }
        let tiled = self.tile_patches(x, oh, ow);
        self.resize_bilinear(&tiled, oh, ow, true)
    }

    /// The decoder: from the features of the image to its logits.
    pub fn decoder(
        &mut self,
        w: &CudaWeights,
        enc: &Vec<DTensor>,
        x: &DTensor,
        dump: &Dump,
    ) -> (r: DTensor)
        requires
            enc@.len() >= 4,
        ensures
            (final(self)@, r) == decoder_plan(old(self)@, w, enc@, *x, dump@),
            final(self).weights == old(self).weights,
    {
        proof {
            reveal(decoder_plan);
        }
        let d = &w.dec;
        if !d.is_complete() {
            self.must(false);
            return self.done(*x);
        }
        let x4 = w.squeeze.apply(self, &enc[3]);
        let p4 = d.start(self, &x4, x, dump);
        let (p3, m4) = d.descend(self, 3, &d.lat4, &d.lat4b, &enc[2], x, &p4, dump);
        let (p2, m3) = d.descend(self, 2, &d.lat3, &d.lat3b, &enc[1], x, &p3, dump);
        let (p1, m2) = d.descend(self, 1, &d.lat2, &d.lat2b, &enc[0], x, &p2, dump);
        d.end(self, x, &p1, (m4, m3, m2), dump)
    }
}

// ---- the whole pass -------------------------------------------------------------------

/// The network on the device: what is planned, and where the weights are.
#[derive(Debug)]
pub struct CudaNet {
    pub m: CudaModel,
    pub w: CudaWeights,
}

/// From an image of `c` planes of `h` by `ww` elements to its logits.
#[verifier::opaque]
pub open spec fn forward_plan(
    p: Plan,
    w: &CudaWeights,
    c: usize,
    h: usize,
    ww: usize,
    dump: Wish,
) -> (Plan, DTensor) {
    let (p, buf) = upload_plan(
        provided(p, h * ww <= usize::MAX && c * (h * ww) <= usize::MAX),
        Source::Input,
        c * (h * ww),
    );
    let x = DTensor { c, h, w: ww, buf };
    let p = dump_plan(p, dump, "input"@, x);
    let (p, enc) = forward_enc_plan(p, w, x, dump);
    decoder_plan(p, w, enc, x, dump)
}

impl CudaNet {
    /// The logits of an image of `c` planes of `h` by `w` elements.
    pub fn forward(&mut self, c: usize, h: usize, w: usize, dump: &Dump) -> (r: DTensor)
        ensures
            (final(self).m@, r) == forward_plan(old(self).m@, &old(self).w, c, h, w, dump@),
            final(self).w == old(self).w,
            final(self).m.weights == old(self).m.weights,
    {
        proof {
            reveal(forward_plan);
        }
        let n = self.m.elements(&DTensor { c, h, w, buf: None });
        let buf = self.m.upload(Source::Input, n);
        let x = DTensor { c, h, w, buf };
        self.m.dump_named(dump, "input", &x);
        let enc = self.m.forward_enc(&self.w, &x, dump);
        self.m.decoder(&self.w, &enc, &x, dump)
    }
}

// ---- laws -----------------------------------------------------------------------------

proof fn lemma_stages_keep(
    base: Mark,
    g: Progress,
    wts: &CudaWeights,
    tag: Seq<char>,
    dump: Wish,
    n: int,
)
    requires
        keeps(base, g.plan),
        base is After,
    ensures
        keeps(base, stages_plan(g, wts, tag, dump, n).plan),
    decreases n,
{
    broadcast use {
        crate::cuda::group_keeps,
        crate::cuda_ops::group_keeps_ops,
        crate::cuda_net::group_keeps_net,
    };

    if n > 0 {
        lemma_stages_keep(base, g, wts, tag, dump, n - 1);
    }
}

/// What is said of a plan stays true with the part behind it.
pub broadcast proof fn lemma_backbone_keeps(
    base: Mark,
    p: Plan,
    wts: &CudaWeights,
    input: DTensor,
    tag: Seq<char>,
    dump: Wish,
)
    requires
        keeps(base, p),
        base is After,
    ensures
        #[trigger] keeps(base, backbone_plan(p, wts, input, tag, dump).0),
{
    broadcast use {
        crate::cuda::group_keeps,
        crate::cuda_ops::group_keeps_ops,
        crate::cuda_net::group_keeps_net,
    };

    reveal(backbone_plan);
    reveal(keeps);
    let (q, tokens, h, w) = patch_embed_plan(p, wts, input);
    let q = dump_plan(q, dump, tag + "_patch_embed_norm"@, tokens);
    lemma_stages_keep(
        base,
        Progress { plan: q, outs: Seq::empty(), cur: tokens, h, w },
        wts,
        tag,
        dump,
        4,
    );
}

/// What is said of a plan stays true with the part behind it.
pub broadcast proof fn lemma_lateral_keeps(base: Mark, p: Plan, full: DTensor, half: DTensor)
    requires
        keeps(base, p),
    ensures
        #[trigger] keeps(base, lateral_plan(p, full, half).0),
{
    broadcast use {
        crate::cuda::group_keeps,
        crate::cuda_ops::group_keeps_ops,
        crate::cuda_net::group_keeps_net,
    };

    reveal(lateral_plan);
}

/// What is said of a plan stays true with the part behind it.
pub broadcast proof fn lemma_context_keeps(
    base: Mark,
    p: Plan,
    a: DTensor,
    b: DTensor,
    c: DTensor,
    d: DTensor,
)
    requires
        keeps(base, p),
    ensures
        #[trigger] keeps(base, context_plan(p, a, b, c, d).0),
{
    broadcast use {
        crate::cuda::group_keeps,
        crate::cuda_ops::group_keeps_ops,
        crate::cuda_net::group_keeps_net,
    };

    reveal(context_plan);
}

/// What is said of a plan stays true with the part behind it.
pub broadcast proof fn lemma_forward_enc_keeps(
    base: Mark,
    p: Plan,
    w: &CudaWeights,
    input: DTensor,
    dump: Wish,
)
    requires
        keeps(base, p),
        base is After,
    ensures
        #[trigger] keeps(base, forward_enc_plan(p, w, input, dump).0),
{
    broadcast use {
        crate::cuda::group_keeps,
        crate::cuda_ops::group_keeps_ops,
        crate::cuda_net::group_keeps_net,
        lemma_backbone_keeps,
        lemma_lateral_keeps,
        lemma_context_keeps,
    };

    reveal(forward_enc_plan);
}

/// What is said of a plan stays true with the part behind it.
pub broadcast proof fn lemma_ipt_input_keeps(
    base: Mark,
    p: Plan,
    x: DTensor,
    oh: usize,
    ow: usize,
)
    requires
        keeps(base, p),
    ensures
        #[trigger] keeps(base, ipt_input_plan(p, x, oh, ow).0),
{
    broadcast use {
        crate::cuda::group_keeps,
        crate::cuda_ops::group_keeps_ops,
        crate::cuda_net::group_keeps_net,
    };

    reveal(ipt_input_plan);
}

/// What is said of a plan stays true with the part behind it.
pub broadcast proof fn lemma_start_keeps(
    base: Mark,
    p: Plan,
    d: &CudaDecoder,
    x4: DTensor,
    x: DTensor,
    dump: Wish,
)
    requires
        keeps(base, p),
        base is After,
    ensures
        #[trigger] keeps(base, d.start_plan(p, x4, x, dump).0),
{
    broadcast use {
        crate::cuda::group_keeps,
        crate::cuda_ops::group_keeps_ops,
        crate::cuda_net::group_keeps_net,
        lemma_ipt_input_keeps,
    };

    reveal(CudaDecoder::start_plan);
}

/// What is said of a plan stays true with the part behind it.
pub broadcast proof fn lemma_descend_keeps(
    base: Mark,
    p: Plan,
    d: &CudaDecoder,
    k: int,
    lat: Dw,
    lat_b: Dw,
    e: DTensor,
    x: DTensor,
    pk: DTensor,
    dump: Wish,
)
    requires
        keeps(base, p),
        base is After,
    ensures
        #[trigger] keeps(base, d.descend_plan(p, k, lat, lat_b, e, x, pk, dump).0),
{
    broadcast use {
        crate::cuda::group_keeps,
        crate::cuda_ops::group_keeps_ops,
        crate::cuda_net::group_keeps_net,
        lemma_ipt_input_keeps,
    };

    reveal(CudaDecoder::descend_plan);
}

/// What is said of a plan stays true with the part behind it.
pub broadcast proof fn lemma_end_keeps(
    base: Mark,
    p: Plan,
    d: &CudaDecoder,
    x: DTensor,
    p1: DTensor,
    preds: (DTensor, DTensor, DTensor),
    dump: Wish,
)
    requires
        keeps(base, p),
        base is After,
    ensures
        #[trigger] keeps(base, d.end_plan(p, x, p1, preds, dump).0),
{
    broadcast use {
        crate::cuda::group_keeps,
        crate::cuda_ops::group_keeps_ops,
        crate::cuda_net::group_keeps_net,
        lemma_ipt_input_keeps,
    };

    reveal(CudaDecoder::end_plan);
}

/// What is said of a plan stays true with the part behind it.
pub broadcast proof fn lemma_decoder_keeps(
    base: Mark,
    p: Plan,
    w: &CudaWeights,
    enc: Seq<DTensor>,
    x: DTensor,
    dump: Wish,
)
    requires
        keeps(base, p),
        base is After,
    ensures
        #[trigger] keeps(base, decoder_plan(p, w, enc, x, dump).0),
{
    broadcast use {
        crate::cuda::group_keeps,
        crate::cuda_ops::group_keeps_ops,
        crate::cuda_net::group_keeps_net,
        lemma_start_keeps,
        lemma_descend_keeps,
        lemma_end_keeps,
    };

    reveal(decoder_plan);
    reveal(keeps);
}

/// A pass through the network only adds to what was planned before: the uploads of the
/// weights come first and stay as they are.
pub proof fn lemma_forward_extends(
    p: Plan,
    w: &CudaWeights,
    c: usize,
    h: usize,
    ww: usize,
    dump: Wish,
)
    ensures
        extends(p, forward_plan(p, w, c, h, ww, dump).0),
{
    assert(keeps(Mark::After(p), forward_plan(p, w, c, h, ww, dump).0)) by {
        broadcast use {
            crate::cuda::group_keeps,
            lemma_forward_enc_keeps,
            lemma_decoder_keeps,
        };

        reveal(forward_plan);
    }
    reveal(keeps);
}

proof fn lemma_end_size(
    d: &CudaDecoder,
    p: Plan,
    x: DTensor,
    p1: DTensor,
    preds: (DTensor, DTensor, DTensor),
    dump: Wish,
)
    requires
        d.end_plan(p, x, p1, preds, dump).0 is Going,
    ensures
        d.end_plan(p, x, p1, preds, dump).1.c == d.conv_out1_w.shape@[0],
        d.end_plan(p, x, p1, preds, dump).1.h == x.h,
        d.end_plan(p, x, p1, preds, dump).1.w == x.w,
{
    broadcast use {
        crate::cuda::group_keeps,
        crate::cuda_ops::group_keeps_ops,
        crate::cuda_net::group_keeps_net,
        lemma_ipt_input_keeps,
    };

    reveal(CudaDecoder::end_plan);
    let (p2, up) = resize_bilinear_plan(p, p1, x.h, x.w, true);
    let (p3, tiles) = ipt_input_plan(p2, x, x.h, x.w);
    let (p4, i1) = d.ipt@[0].plan(p3, tiles);
    let p4 = dump_plan(p4, dump, "ipt_blk1"@, i1);
    let (p5, last) = cat_plan(p4, seq![up, i1]);
    let (p6, out) = conv_plan(p5, last, d.conv_out1_w@, d.conv_out1_b.buf, 1, false);
    let end = d.end_plan(p, x, p1, preds, dump).0;
    assert(keeps(Mark::After(p2), end));
    assert(keeps(Mark::After(p5), end));
    assert(keeps(Mark::After(p6), end));
    assert(p2 is Going && p5 is Going && p6 is Going) by {
        reveal(keeps);
        reveal(extends);
    }
    assert(up.h == x.h && up.w == x.w) by {
        reveal(resize_bilinear_plan);
    }
    assert(last.h == x.h && last.w == x.w) by {
        reveal(cat_plan);
        let parts = seq![up, i1];
        assert(parts[0] == up);
        crate::cuda_ops::lemma_copies_broken(parts, no_tensor(), 2);
    }
    assert(out.h == x.h && out.w == x.w && out.c == d.conv_out1_w.shape@[0]) by {
        reveal(conv_plan);
    }
}

/// The logits have the size of the image, and one plane for each output of the last
/// convolution.
pub proof fn lemma_forward_size(
    p: Plan,
    w: &CudaWeights,
    c: usize,
    h: usize,
    ww: usize,
    dump: Wish,
)
    requires
        forward_plan(p, w, c, h, ww, dump).0 is Going,
    ensures
        forward_plan(p, w, c, h, ww, dump).1.c == w.dec.conv_out1_w.shape@[0],
        forward_plan(p, w, c, h, ww, dump).1.h == h,
        forward_plan(p, w, c, h, ww, dump).1.w == ww,
{
    reveal(forward_plan);
    reveal(decoder_plan);
    let (q, buf) = upload_plan(
        provided(p, h * ww <= usize::MAX && c * (h * ww) <= usize::MAX),
        Source::Input,
        c * (h * ww),
    );
    let x = DTensor { c, h, w: ww, buf };
    let q = dump_plan(q, dump, "input"@, x);
    let (q, enc) = forward_enc_plan(q, w, x, dump);
    let d = &w.dec;
    let (q, x4) = w.squeeze.plan(q, enc[3]);
    let (q, p4) = d.start_plan(q, x4, x, dump);
    let (q, p3, m4) = d.descend_plan(q, 3, d.lat4@, d.lat4b@, enc[2], x, p4, dump);
    let (q, p2, m3) = d.descend_plan(q, 2, d.lat3@, d.lat3b@, enc[1], x, p3, dump);
    let (q, p1, m2) = d.descend_plan(q, 1, d.lat2@, d.lat2b@, enc[0], x, p2, dump);
    lemma_end_size(d, q, x, p1, (m4, m3, m2), dump);
}

} // verus!
