//! Planning the network from the image to the logits.

use crate::cuda::{
    keeps, no_tensor, part_plan, provided, upload_plan, CudaModel, DTensor, Kernel, Mark, Plan,
    Source, DW,
};
use crate::cuda_graph::{
    swin_block_plan, CudaAttn, CudaBn, CudaLayerNorm, CudaLinear, CudaMlp, CudaSwinBlock,
};
use crate::cuda_ops::{
    affine_plan, cat_plan, conv_plan, deform_conv_plan, double_sigmoid_plan, global_avg_pool_plan,
    layernorm_plan, linear_1x1_plan, nchw_to_tokens_plan, patch_merge_plan, resize_bilinear_plan,
    unary_plan,
};
use crate::dump::{Dump, Wish};
use crate::linear::LN_EPS;
use crate::swin::{block_name, downsample_name, pad_up};
use crate::windows::WINDOW;
use crate::words::{joined, number_string, numbered};
use vstd::prelude::*;
use vstd::string::StringExecFns;

verus! {

broadcast use {crate::cuda_ops::group_broken_ops, crate::cuda_graph::group_broken_graph};

// ---- the parts of the decoder ---------------------------------------------------------

/// A modulated convolution at moved points, on the device.
#[derive(Debug)]
pub struct CudaDeformConv {
    pub offset_w: DW,
    pub offset_b: DW,
    pub modulator_w: DW,
    pub modulator_b: DW,
    pub regular_w: DW,
    pub k: usize,
    pub pad: usize,
    pub ic: usize,
    pub oc: usize,
}

/// A branch of the pyramid, on the device.
#[derive(Debug)]
pub struct CudaAsppBranch {
    pub conv: CudaDeformConv,
    pub bn: CudaBn,
}

/// The pyramid of convolutions of several sizes, on the device.
#[derive(Debug)]
pub struct CudaAspp {
    pub aspp1: CudaAsppBranch,
    pub deforms: Vec<CudaAsppBranch>,
    pub gap_conv_w: DW,
    pub gap_bn: CudaBn,
    pub conv1_w: DW,
    pub bn1: CudaBn,
}

/// A block of the decoder, on the device.
#[derive(Debug)]
pub struct CudaBasicDecBlk {
    pub conv_in_w: DW,
    pub conv_in_b: DW,
    pub bn_in: CudaBn,
    pub aspp: CudaAspp,
    pub conv_out_w: DW,
    pub conv_out_b: DW,
    pub bn_out: CudaBn,
    pub ic: usize,
    pub ic_mid: usize,
    pub oc: usize,
}

/// Two convolutions, on the device.
#[derive(Debug)]
pub struct CudaSimpleConvs {
    pub c1w: DW,
    pub c1b: DW,
    pub cow: DW,
    pub cob: DW,
    pub ic: usize,
    pub oc: usize,
}

/// Attention over the plane, on the device.
#[derive(Debug)]
pub struct CudaGdt {
    pub w: DW,
    pub b: DW,
    pub bn: CudaBn,
    pub attn_w: DW,
    pub attn_b: DW,
    pub ic: usize,
}

/// The decoder, on the device.
#[derive(Debug)]
pub struct CudaDecoder {
    pub ipt: Vec<CudaSimpleConvs>,
    pub blocks: Vec<CudaBasicDecBlk>,
    pub lat2: DW,
    pub lat2b: DW,
    pub lat3: DW,
    pub lat3b: DW,
    pub lat4: DW,
    pub lat4b: DW,
    pub ms: Vec<(DW, DW)>,
    pub conv_out1_w: DW,
    pub conv_out1_b: DW,
    pub gdt: Vec<CudaGdt>,
}

/// A stage of the backbone, on the device.
#[derive(Debug)]
pub struct CudaSwinStage {
    pub dim: usize,
    pub heads: usize,
    pub blocks: Vec<CudaSwinBlock>,
    pub ln1: Vec<CudaLayerNorm>,
    pub ln2: Vec<CudaLayerNorm>,
    pub attn: Vec<CudaAttn>,
    pub mlp: Vec<CudaMlp>,
    pub ds_norm_w: Option<DW>,
    pub ds_norm_b: Option<DW>,
    pub ds_red: Option<CudaLinear>,
}

/// Every weight of the network, on the device.
#[derive(Debug)]
pub struct CudaWeights {
    pub proj_w: DW,
    pub proj_b: DW,
    pub pe_norm_w: DW,
    pub pe_norm_b: DW,
    pub norm_w: Vec<DW>,
    pub norm_b: Vec<DW>,
    pub stages: Vec<CudaSwinStage>,
    pub squeeze: CudaBasicDecBlk,
    pub dec: CudaDecoder,
}

/// Behind a batch norm, what is below zero becomes zero.
#[verifier::opaque]
pub open spec fn bn_relu_plan(p: Plan, x: DTensor, bn: &CudaBn) -> (Plan, DTensor) {
    let (p, y) = affine_plan(p, x, bn.scale@, bn.shift@);
    unary_plan(p, Kernel::Relu, y)
}

impl CudaBn {
    /// Behind the batch norm, what is below zero becomes zero.
    pub fn relu(&self, m: &mut CudaModel, x: &DTensor) -> (r: DTensor)
        ensures
            (final(m)@, r) == bn_relu_plan(old(m)@, *x, self),
            final(m).weights == old(m).weights,
    {
        proof {
            reveal(bn_relu_plan);
        }
        let y = m.affine(x, &self.scale, &self.shift);
        m.relu(&y)
    }
}

impl CudaDeformConv {
    /// The offsets and the modulators of all points, then the convolution at these points.
    #[verifier::opaque]
    pub open spec fn plan(&self, p: Plan, x: DTensor) -> (Plan, DTensor) {
        let (p, off) = conv_plan(p, x, self.offset_w@, self.offset_b.buf, self.k, false);
        let (p, mask) = conv_plan(p, x, self.modulator_w@, self.modulator_b.buf, self.k, false);
        let (p, mask) = double_sigmoid_plan(p, mask);
        deform_conv_plan(p, x, off, mask, self.regular_w@, self.k, self.pad)
    }

    /// The offsets and the modulators of all points, then the convolution at these points.
    pub fn apply(&self, m: &mut CudaModel, x: &DTensor) -> (r: DTensor)
        ensures
            (final(m)@, r) == self.plan(old(m)@, *x),
            final(m).weights == old(m).weights,
    {
        proof {
            reveal(CudaDeformConv::plan);
        }
        let off = m.conv(x, &self.offset_w, Some(&self.offset_b), self.k, false);
        let mask = m.conv(x, &self.modulator_w, Some(&self.modulator_b), self.k, false);
        let mask = m.double_sigmoid(&mask);
        m.deform_conv(x, &off, &mask, &self.regular_w, self.k, self.pad)
    }
}

impl CudaAsppBranch {
    /// The convolution and its norm.
    #[verifier::opaque]
    pub open spec fn plan(&self, p: Plan, x: DTensor) -> (Plan, DTensor) {
        let (p, y) = self.conv.plan(p, x);
        bn_relu_plan(p, y, &self.bn)
    }

    /// The convolution and its norm.
    pub fn apply(&self, m: &mut CudaModel, x: &DTensor) -> (r: DTensor)
        ensures
            (final(m)@, r) == self.plan(old(m)@, *x),
            final(m).weights == old(m).weights,
    {
        proof {
            reveal(CudaAsppBranch::plan);
        }
        let y = self.conv.apply(m, x);
        self.bn.relu(m, &y)
    }
}

/// The first `n` branches, each added to `parts`.
pub open spec fn branches_plan(
    p: Plan,
    deforms: Seq<CudaAsppBranch>,
    x: DTensor,
    parts: Seq<DTensor>,
    n: int,
) -> (Plan, Seq<DTensor>)
    decreases n,
{
    if n <= 0 {
        (p, parts)
    } else {
        let (p, parts) = branches_plan(p, deforms, x, parts, n - 1);
        let (p, y) = deforms[n - 1].plan(p, x);
        (p, parts.push(y))
    }
}

impl CudaAspp {
    /// The mean of the image, spread over it.
    #[verifier::opaque]
    pub open spec fn pooled(&self, p: Plan, x: DTensor) -> (Plan, DTensor) {
        let (p, g) = global_avg_pool_plan(p, x);
        let (p, g) = linear_1x1_plan(p, g, self.gap_conv_w@, None);
        let (p, g) = bn_relu_plan(p, g, &self.gap_bn);
        resize_bilinear_plan(p, g, x.h, x.w, true)
    }

    /// All branches and the mean of the image, one behind the other, and their mixture.
    #[verifier::opaque]
    pub open spec fn plan(&self, p: Plan, x: DTensor) -> (Plan, DTensor) {
        let (p, x1) = self.aspp1.plan(p, x);
        let (p, parts) = branches_plan(
            p,
            self.deforms@,
            x,
            seq![x1],
            self.deforms@.len() as int,
        );
        let (p, g) = self.pooled(p, x);
        let (p, cat) = cat_plan(p, parts.push(g));
        let (p, y) = conv_plan(p, cat, self.conv1_w@, None, 1, false);
        bn_relu_plan(p, y, &self.bn1)
    }

    fn pool(&self, m: &mut CudaModel, x: &DTensor) -> (r: DTensor)
        ensures
            (final(m)@, r) == self.pooled(old(m)@, *x),
            final(m).weights == old(m).weights,
    {
        proof {
            reveal(CudaAspp::pooled);
        }
        let g = m.global_avg_pool(x);
        let g = m.linear_1x1(&g, &self.gap_conv_w, None);
        let g = self.gap_bn.relu(m, &g);
        m.resize_bilinear(&g, x.h, x.w, true)
    }

    /// All branches and the mean of the image, one behind the other, and their mixture.
    pub fn apply(&self, m: &mut CudaModel, x: &DTensor) -> (r: DTensor)
        ensures
            (final(m)@, r) == self.plan(old(m)@, *x),
            final(m).weights == old(m).weights,
    {
        proof {
            reveal(CudaAspp::plan);
        }
        let x1 = self.aspp1.apply(m, x);
        let ghost p = m@;
        let mut parts: Vec<DTensor> = vec![x1];
        let ghost first = parts@;
        assert(first =~= seq![x1]);
        let mut i: usize = 0;
        while i < self.deforms.len()
            invariant
                m.weights == old(m).weights,
                i <= self.deforms@.len(),
                (m@, parts@) == branches_plan(p, self.deforms@, *x, first, i as int),
            decreases self.deforms@.len() - i,
        {
            let y = self.deforms[i].apply(m, x);
            parts.push(y);
            i += 1;
        }
        let g = self.pool(m, x);
        parts.push(g);
        let cat = m.cat(&parts);
        let y = m.conv(&cat, &self.conv1_w, None, 1, false);
        self.bn1.relu(m, &y)
    }
}

impl CudaBasicDecBlk {
    /// A convolution, the pyramid, another convolution.
    #[verifier::opaque]
    pub open spec fn plan(&self, p: Plan, x: DTensor) -> (Plan, DTensor) {
        let (p, y) = conv_plan(p, x, self.conv_in_w@, self.conv_in_b.buf, 3, false);
        let (p, y) = bn_relu_plan(p, y, &self.bn_in);
        let (p, y) = self.aspp.plan(p, y);
        let (p, y) = conv_plan(p, y, self.conv_out_w@, self.conv_out_b.buf, 3, false);
        affine_plan(p, y, self.bn_out.scale@, self.bn_out.shift@)
    }

    /// A convolution, the pyramid, another convolution.
    pub fn apply(&self, m: &mut CudaModel, x: &DTensor) -> (r: DTensor)
        ensures
            (final(m)@, r) == self.plan(old(m)@, *x),
            final(m).weights == old(m).weights,
    {
        proof {
            reveal(CudaBasicDecBlk::plan);
        }
        let y = m.conv(x, &self.conv_in_w, Some(&self.conv_in_b), 3, false);
        let y = self.bn_in.relu(m, &y);
        let y = self.aspp.apply(m, &y);
        let y = m.conv(&y, &self.conv_out_w, Some(&self.conv_out_b), 3, false);
        m.affine(&y, &self.bn_out.scale, &self.bn_out.shift)
    }
}

impl CudaSimpleConvs {
    /// Two convolutions.
    #[verifier::opaque]
    pub open spec fn plan(&self, p: Plan, x: DTensor) -> (Plan, DTensor) {
        let (p, y) = conv_plan(p, x, self.c1w@, self.c1b.buf, 3, false);
        conv_plan(p, y, self.cow@, self.cob.buf, 3, false)
    }

    /// Two convolutions.
    pub fn apply(&self, m: &mut CudaModel, x: &DTensor) -> (r: DTensor)
        ensures
            (final(m)@, r) == self.plan(old(m)@, *x),
            final(m).weights == old(m).weights,
    {
        proof {
            reveal(CudaSimpleConvs::plan);
        }
        let y = m.conv(x, &self.c1w, Some(&self.c1b), 3, false);
        m.conv(&y, &self.cow, Some(&self.cob), 3, false)
    }
}

impl CudaGdt {
    /// A convolution and its norm, then how much each position counts.
    #[verifier::opaque]
    pub open spec fn plan(&self, p: Plan, x: DTensor) -> (Plan, DTensor) {
        let (p, g) = conv_plan(p, x, self.w@, self.b.buf, 3, false);
        let (p, g) = bn_relu_plan(p, g, &self.bn);
        let (p, a) = conv_plan(p, g, self.attn_w@, self.attn_b.buf, 1, false);
        unary_plan(p, Kernel::Sigmoid, a)
    }

    /// A convolution and its norm, then how much each position counts.
    pub fn apply(&self, m: &mut CudaModel, x: &DTensor) -> (r: DTensor)
        ensures
            (final(m)@, r) == self.plan(old(m)@, *x),
            final(m).weights == old(m).weights,
    {
        proof {
            reveal(CudaGdt::plan);
        }
        let g = m.conv(x, &self.w, Some(&self.b), 3, false);
        let g = self.bn.relu(m, &g);
        let a = m.conv(&g, &self.attn_w, Some(&self.attn_b), 1, false);
        m.sigmoid(&a)
    }
}

// ---- the backbone ---------------------------------------------------------------------

impl CudaSwinStage {
    /// Every block has its norms, its attention and its perceptron.
    pub open spec fn complete(&self) -> bool {
        &&& self.ln1@.len() == self.blocks@.len()
        &&& self.ln2@.len() == self.blocks@.len()
        &&& self.attn@.len() == self.blocks@.len()
        &&& self.mlp@.len() == self.blocks@.len()
    }

    /// Whether every block has its norms, its attention and its perceptron.
    pub fn is_complete(&self) -> (r: bool)
        ensures
            r == self.complete(),
    {
        let n = self.blocks.len();
        self.ln1.len() == n && self.ln2.len() == n && self.attn.len() == n && self.mlp.len() == n
    }

    /// The first `n` blocks, one behind the other. A block that rolls uses the mask.
    pub open spec fn blocks_plan(
        &self,
        p: Plan,
        x: DTensor,
        h: usize,
        w: usize,
        mask: Option<usize>,
        stage: int,
        tag: Seq<char>,
        dump: Wish,
        n: int,
    ) -> (Plan, DTensor)
        decreases n,
    {
        if n <= 0 {
            (p, x)
        } else {
            let (p, x) = self.blocks_plan(p, x, h, w, mask, stage, tag, dump, n - 1);
            let b = n - 1;
            let (p, y) = swin_block_plan(
                p,
                self.blocks@[b],
                &self.attn@[b],
                &self.ln1@[b],
                &self.ln2@[b],
                &self.mlp@[b],
                x,
                h,
                w,
                if self.blocks@[b].shift > 0 { mask } else { None },
                None,
            );
            (part_plan(p, dump, block_name(tag, stage, b), y), y)
        }
    }

    /// What the stage hands to the next: the tokens of two by two squares together, normed
    /// and mapped.
    #[verifier::opaque]
    pub open spec fn down_plan(&self, p: Plan, x: DTensor, h: usize, w: usize) -> (Plan, DTensor) {
        let (p, cat) = patch_merge_plan(
            provided(
                p,
                self.ds_norm_w is Some && self.ds_norm_b is Some && self.ds_red is Some,
            ),
            x,
            h,
            w,
        );
        let (p, normed) = layernorm_plan(
            p,
            cat,
            (self.ds_norm_w->0)@,
            (self.ds_norm_b->0)@,
            LN_EPS,
        );
        self.ds_red->0.plan(p, normed, cat.w)
    }

    fn down(&self, m: &mut CudaModel, x: &DTensor, h: usize, w: usize) -> (r: DTensor)
        ensures
            (final(m)@, r) == self.down_plan(old(m)@, *x, h, w),
            final(m).weights == old(m).weights,
    {
        proof {
            reveal(CudaSwinStage::down_plan);
        }
        match (&self.ds_norm_w, &self.ds_norm_b, &self.ds_red) {
            (Some(nw), Some(nb), Some(red)) => {
                let cat = m.patch_merge(x, h, w);
                let normed = m.layernorm(&cat, nw, nb, LN_EPS);
                red.apply(m, &normed, cat.w)
            },
            _ => {
                m.must(false);
                m.done(*x)
            },
        }
    }
}

/// What comes out of a stage: the features of the stage and what goes into the next one.
pub struct StagePlan {
    pub plan: Plan,
    pub out: DTensor,
    pub down: Option<DTensor>,
    pub oh: usize,
    pub ow: usize,
}

/// The mask of a padded grid, from the host.
#[verifier::opaque]
pub open spec fn mask_plan(p: Plan, h: usize, w: usize) -> (Plan, Option<usize>) {
    let hp = pad_up(h as int);
    let wp = pad_up(w as int);
    let n_win = (hp / 12) * (wp / 12);
    upload_plan(
        provided(
            p,
            hp <= usize::MAX && wp <= usize::MAX && n_win <= usize::MAX && n_win * 20736
                <= usize::MAX,
        ),
        Source::Mask { hp: hp as usize, wp: wp as usize },
        n_win * 20736,
    )
}

/// A stage: its blocks, the norm of what they make, and what goes into the next stage, which
/// the last stage has none of.
#[verifier::opaque]
pub open spec fn swin_stage_plan(
    p: Plan,
    st: &CudaSwinStage,
    wts: &CudaWeights,
    stage: usize,
    tokens: DTensor,
    h: usize,
    w: usize,
    tag: Seq<char>,
    dump: Wish,
) -> StagePlan {
    if !st.complete() || stage >= wts.norm_w@.len() || stage >= wts.norm_b@.len() || h
        == usize::MAX || w == usize::MAX {
        StagePlan { plan: Plan::Broken, out: no_tensor(), down: None, oh: 0, ow: 0 }
    } else {
        let (p, mask) = mask_plan(p, h, w);
        let (p, cur) = st.blocks_plan(
            p,
            DTensor { c: tokens.c, h: 1, w: tokens.w, buf: tokens.buf },
            h,
            w,
            mask,
            stage as int,
            tag,
            dump,
            st.blocks@.len() as int,
        );
        let (p, out) = layernorm_plan(
            p,
            cur,
            wts.norm_w@[stage as int]@,
            wts.norm_b@[stage as int]@,
            LN_EPS,
        );
        if stage >= 3 {
            StagePlan { plan: p, out, down: None, oh: 0, ow: 0 }
        } else {
            let (p, down) = st.down_plan(p, cur, h, w);
            StagePlan {
                plan: part_plan(p, dump, downsample_name(tag, stage as int), down),
                out,
                down: Some(down),
                oh: ((h + 1) / 2) as usize,
                ow: ((w + 1) / 2) as usize,
            }
        }
    }
}

/// The tokens of an image: one for each four by four square, normed.
#[verifier::opaque]
pub open spec fn patch_embed_plan(p: Plan, wts: &CudaWeights, input: DTensor) -> (
    Plan,
    DTensor,
    usize,
    usize,
) {
    let (p, tok) = conv_plan(p, input, wts.proj_w@, wts.proj_b.buf, 4, true);
    let (p, t) = nchw_to_tokens_plan(p, tok);
    let (p, n) = layernorm_plan(p, t, wts.pe_norm_w@, wts.pe_norm_b@, LN_EPS);
    (p, n, tok.h, tok.w)
}

impl CudaModel {
    fn mask(&mut self, h: usize, w: usize) -> (r: Option<usize>)
        ensures
            (final(self)@, r) == mask_plan(old(self)@, h, w),
            final(self).weights == old(self).weights,
    {
        proof {
            reveal(mask_plan);
        }
        let pad_r = (WINDOW - w % WINDOW) % WINDOW;
        let pad_b = (WINDOW - h % WINDOW) % WINDOW;
        if h > usize::MAX - pad_b || w > usize::MAX - pad_r {
            self.must(false);
            return None;
        }
        let hp = h + pad_b;
        let wp = w + pad_r;
        let n_win = self.times(hp / WINDOW, wp / WINDOW);
        let n = self.times(n_win, 20736);
        self.upload(Source::Mask { hp, wp }, n)
    }

    /// The tokens of an image: one for each four by four square, normed.
    pub fn patch_embed(&mut self, wts: &CudaWeights, input: &DTensor) -> (r: (
        DTensor,
        usize,
        usize,
    ))
        ensures
            (final(self)@, r.0, r.1, r.2) == patch_embed_plan(old(self)@, wts, *input),
            final(self).weights == old(self).weights,
    {
        proof {
            reveal(patch_embed_plan);
        }
        let tok = self.conv(input, &wts.proj_w, Some(&wts.proj_b), 4, true);
        let t = self.nchw_to_tokens(&tok);
        let n = self.layernorm(&t, &wts.pe_norm_w, &wts.pe_norm_b, LN_EPS);
        (n, tok.h, tok.w)
    }

    fn blocks(
        &mut self,
        st: &CudaSwinStage,
        x: DTensor,
        h: usize,
        w: usize,
        mask: Option<usize>,
        stage: usize,
        tag: &str,
        dump: &Dump,
    ) -> (r: DTensor)
        requires
            st.complete(),
        ensures
            (final(self)@, r) == st.blocks_plan(
                old(self)@,
                x,
                h,
                w,
                mask,
                stage as int,
                tag@,
                dump@,
                st.blocks@.len() as int,
            ),
            final(self).weights == old(self).weights,
    {
        let ghost p = self@;
        let mut cur = x;
        let mut b: usize = 0;
        while b < st.blocks.len()
            invariant
                self.weights == old(self).weights,
                b <= st.blocks@.len(),
                st.complete(),
                (self@, cur) == st.blocks_plan(
                    p,
                    x,
                    h,
                    w,
                    mask,
                    stage as int,
                    tag@,
                    dump@,
                    b as int,
                ),
            decreases st.blocks@.len() - b,
        {
            let blk = st.blocks[b];
            let mk = if blk.shift > 0 { mask } else { None };
            cur = self.swin_block(
                &blk,
                &st.attn[b],
                &st.ln1[b],
                &st.ln2[b],
                &st.mlp[b],
                &cur,
                h,
                w,
                mk,
                None,
            );
            let mut name = numbered(joined(tag, "_blocks_").as_str(), stage, "_");
            name.append(number_string(b).as_str());
            self.dump_part(dump, name.as_str(), &cur);
            b += 1;
        }
        cur
    }

    /// A stage: its blocks, the norm of what they make, and what goes into the next stage.
    pub fn swin_stage(
        &mut self,
        st: &CudaSwinStage,
        wts: &CudaWeights,
        stage: usize,
        tokens: &DTensor,
        h: usize,
        w: usize,
        tag: &str,
        dump: &Dump,
    ) -> (r: (DTensor, Option<DTensor>, usize, usize))
        ensures
            (StagePlan { plan: final(self)@, out: r.0, down: r.1, oh: r.2, ow: r.3 })
                == swin_stage_plan(old(self)@, st, wts, stage, *tokens, h, w, tag@, dump@),
            final(self).weights == old(self).weights,
    {
        proof {
            reveal(swin_stage_plan);
        }
        if !st.is_complete() || stage >= wts.norm_w.len() || stage >= wts.norm_b.len() || h
            == usize::MAX || w == usize::MAX {
            self.must(false);
            return (self.done(*tokens), None, 0, 0);
        }
        let mask = self.mask(h, w);
        let cur = DTensor { c: tokens.c, h: 1, w: tokens.w, buf: tokens.buf };
        let cur = self.blocks(st, cur, h, w, mask, stage, tag, dump);
        let out = self.layernorm(&cur, &wts.norm_w[stage], &wts.norm_b[stage], LN_EPS);
        if stage >= 3 {
            return (out, None, 0, 0);
        }
        let down = st.down(self, &cur, h, w);
        let name = numbered(joined(tag, "_downsample_").as_str(), stage, "");
        proof {
            reveal_strlit("");
            assert(name@ =~= downsample_name(tag@, stage as int));
        }
        self.dump_part(dump, name.as_str(), &down);
        (out, Some(down), (h + 1) / 2, (w + 1) / 2)
    }
}

// ---- what was planned stays planned ---------------------------------------------------

/// What is said of a plan stays true with the part behind it.
pub broadcast proof fn lemma_bn_relu_keeps(base: Mark, p: Plan, x: DTensor, bn: &CudaBn)
    requires
        keeps(base, p),
    ensures
        #[trigger] keeps(base, bn_relu_plan(p, x, bn).0),
{
    broadcast use {
        crate::cuda::group_keeps,
        crate::cuda_ops::group_keeps_ops,
        crate::cuda_graph::group_keeps_graph,
    };

    reveal(bn_relu_plan);
}

/// What is said of a plan stays true with the part behind it.
pub broadcast proof fn lemma_deform_keeps(base: Mark, p: Plan, l: &CudaDeformConv, x: DTensor)
    requires
        keeps(base, p),
    ensures
        #[trigger] keeps(base, l.plan(p, x).0),
{
    broadcast use {
        crate::cuda::group_keeps,
        crate::cuda_ops::group_keeps_ops,
        crate::cuda_graph::group_keeps_graph,
    };

    reveal(CudaDeformConv::plan);
}

/// What is said of a plan stays true with the part behind it.
pub broadcast proof fn lemma_branch_keeps(base: Mark, p: Plan, l: &CudaAsppBranch, x: DTensor)
    requires
        keeps(base, p),
    ensures
        #[trigger] keeps(base, l.plan(p, x).0),
{
    broadcast use {
        crate::cuda::group_keeps,
        crate::cuda_ops::group_keeps_ops,
        crate::cuda_graph::group_keeps_graph,
        lemma_deform_keeps,
        lemma_bn_relu_keeps,
    };

    reveal(CudaAsppBranch::plan);
}

proof fn lemma_branches_keep(
    base: Mark,
    p: Plan,
    deforms: Seq<CudaAsppBranch>,
    x: DTensor,
    parts: Seq<DTensor>,
    n: int,
)
    requires
        keeps(base, p),
    ensures
        keeps(base, branches_plan(p, deforms, x, parts, n).0),
    decreases n,
{
    if n > 0 {
        lemma_branches_keep(base, p, deforms, x, parts, n - 1);
        let (q, more) = branches_plan(p, deforms, x, parts, n - 1);
        lemma_branch_keeps(base, q, &deforms[n - 1], x);
    }
}

/// What is said of a plan stays true with the part behind it.
pub broadcast proof fn lemma_pooled_keeps(base: Mark, p: Plan, l: &CudaAspp, x: DTensor)
    requires
        keeps(base, p),
    ensures
        #[trigger] keeps(base, l.pooled(p, x).0),
{
    broadcast use {
        crate::cuda::group_keeps,
        crate::cuda_ops::group_keeps_ops,
        crate::cuda_graph::group_keeps_graph,
        lemma_bn_relu_keeps,
    };

    reveal(CudaAspp::pooled);
}

/// What is said of a plan stays true with the part behind it.
pub broadcast proof fn lemma_aspp_keeps(base: Mark, p: Plan, l: &CudaAspp, x: DTensor)
    requires
        keeps(base, p),
    ensures
        #[trigger] keeps(base, l.plan(p, x).0),
{
    broadcast use {
        crate::cuda::group_keeps,
        crate::cuda_ops::group_keeps_ops,
        crate::cuda_graph::group_keeps_graph,
        lemma_bn_relu_keeps,
        lemma_branch_keeps,
        lemma_pooled_keeps,
    };

    reveal(CudaAspp::plan);
    let (q, x1) = l.aspp1.plan(p, x);
    lemma_branches_keep(base, q, l.deforms@, x, seq![x1], l.deforms@.len() as int);
}

/// What is said of a plan stays true with the part behind it.
pub broadcast proof fn lemma_dec_block_keeps(base: Mark, p: Plan, l: &CudaBasicDecBlk, x: DTensor)
    requires
        keeps(base, p),
    ensures
        #[trigger] keeps(base, l.plan(p, x).0),
{
    broadcast use {
        crate::cuda::group_keeps,
        crate::cuda_ops::group_keeps_ops,
        crate::cuda_graph::group_keeps_graph,
        lemma_bn_relu_keeps,
        lemma_aspp_keeps,
    };

    reveal(CudaBasicDecBlk::plan);
}

/// What is said of a plan stays true with the part behind it.
pub broadcast proof fn lemma_simple_keeps(base: Mark, p: Plan, l: &CudaSimpleConvs, x: DTensor)
    requires
        keeps(base, p),
    ensures
        #[trigger] keeps(base, l.plan(p, x).0),
{
    broadcast use {
        crate::cuda::group_keeps,
        crate::cuda_ops::group_keeps_ops,
        crate::cuda_graph::group_keeps_graph,
    };

    reveal(CudaSimpleConvs::plan);
}

/// What is said of a plan stays true with the part behind it.
pub broadcast proof fn lemma_plane_keeps(base: Mark, p: Plan, l: &CudaGdt, x: DTensor)
    requires
        keeps(base, p),
    ensures
        #[trigger] keeps(base, l.plan(p, x).0),
{
    broadcast use {
        crate::cuda::group_keeps,
        crate::cuda_ops::group_keeps_ops,
        crate::cuda_graph::group_keeps_graph,
        lemma_bn_relu_keeps,
    };

    reveal(CudaGdt::plan);
}

/// What is said of a plan stays true with the part behind it.
pub broadcast proof fn lemma_down_keeps(
    base: Mark,
    p: Plan,
    s: &CudaSwinStage,
    x: DTensor,
    h: usize,
    w: usize,
)
    requires
        keeps(base, p),
    ensures
        #[trigger] keeps(base, s.down_plan(p, x, h, w).0),
{
    broadcast use {
        crate::cuda::group_keeps,
        crate::cuda_ops::group_keeps_ops,
        crate::cuda_graph::group_keeps_graph,
    };

    reveal(CudaSwinStage::down_plan);
}

/// What is said of a plan stays true with the part behind it.
pub broadcast proof fn lemma_mask_keeps(base: Mark, p: Plan, h: usize, w: usize)
    requires
        keeps(base, p),
    ensures
        #[trigger] keeps(base, mask_plan(p, h, w).0),
{
    broadcast use {
        crate::cuda::group_keeps,
        crate::cuda_ops::group_keeps_ops,
        crate::cuda_graph::group_keeps_graph,
    };

    reveal(mask_plan);
}

/// What is said of a plan stays true with the part behind it.
pub broadcast proof fn lemma_patch_embed_keeps(
    base: Mark,
    p: Plan,
    wts: &CudaWeights,
    input: DTensor,
)
    requires
        keeps(base, p),
    ensures
        #[trigger] keeps(base, patch_embed_plan(p, wts, input).0),
{
    broadcast use {
        crate::cuda::group_keeps,
        crate::cuda_ops::group_keeps_ops,
        crate::cuda_graph::group_keeps_graph,
    };

    reveal(patch_embed_plan);
}

proof fn lemma_blocks_keep(
    base: Mark,
    p: Plan,
    st: &CudaSwinStage,
    x: DTensor,
    h: usize,
    w: usize,
    mask: Option<usize>,
    stage: int,
    tag: Seq<char>,
    dump: Wish,
    n: int,
)
    requires
        keeps(base, p),
        base is After,
    ensures
        keeps(base, st.blocks_plan(p, x, h, w, mask, stage, tag, dump, n).0),
    decreases n,
{
    broadcast use {crate::cuda::group_keeps, crate::cuda_graph::group_keeps_graph};

    if n > 0 {
        lemma_blocks_keep(base, p, st, x, h, w, mask, stage, tag, dump, n - 1);
    }
}

/// What is said of a plan stays true with the part behind it.
pub broadcast proof fn lemma_swin_stage_keeps(
    base: Mark,
    p: Plan,
    st: &CudaSwinStage,
    wts: &CudaWeights,
    stage: usize,
    tokens: DTensor,
    h: usize,
    w: usize,
    tag: Seq<char>,
    dump: Wish,
)
    requires
        keeps(base, p),
        base is After,
    ensures
        #[trigger] keeps(base, swin_stage_plan(p, st, wts, stage, tokens, h, w, tag, dump).plan),
{
    broadcast use {
        crate::cuda::group_keeps,
        crate::cuda_ops::group_keeps_ops,
        crate::cuda_graph::group_keeps_graph,
        lemma_mask_keeps,
        lemma_down_keeps,
    };

    reveal(swin_stage_plan);
    reveal(keeps);
    let (q, mask) = mask_plan(p, h, w);
    lemma_mask_keeps(base, p, h, w);
    lemma_blocks_keep(
        base,
        q,
        st,
        DTensor { c: tokens.c, h: 1, w: tokens.w, buf: tokens.buf },
        h,
        w,
        mask,
        stage as int,
        tag,
        dump,
        st.blocks@.len() as int,
    );
}

/// What is said of a plan stays true with the parts of the network behind it.
pub broadcast group group_keeps_net {
    lemma_bn_relu_keeps,
    lemma_deform_keeps,
    lemma_branch_keeps,
    lemma_pooled_keeps,
    lemma_aspp_keeps,
    lemma_dec_block_keeps,
    lemma_simple_keeps,
    lemma_plane_keeps,
    lemma_down_keeps,
    lemma_mask_keeps,
    lemma_patch_embed_keeps,
    lemma_swin_stage_keeps,
}

} // verus!
