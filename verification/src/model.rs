//! The decoder and the whole network, as loaded from the weights.

use crate::graph::{BasicDecBlk, GdtConv, SimpleConvs};
use crate::loading::{clear, fails_with, group_steps, reads, Step};
use crate::scalar::{computes, Arith, Scalar};
use crate::swin::SwinStage;
use crate::weights::{data, Checkpoint, Weights, WeightsError};
use crate::words::{joined, number_text, numbered};
use vstd::prelude::*;

verus! {

broadcast use group_steps;

/// The decoder.
#[derive(Debug)]
pub struct Decoder<T> {
    /// What the image goes through at each scale, the finest first.
    pub ipt: Vec<SimpleConvs<T>>,
    /// The blocks, the finest first.
    pub blocks: Vec<BasicDecBlk<T>>,
    pub lat2: Vec<T>,
    pub lat2b: Vec<T>,
    pub lat3: Vec<T>,
    pub lat3b: Vec<T>,
    pub lat4: Vec<T>,
    pub lat4b: Vec<T>,
    /// Weights and bias of the predictions on the way, the finest first.
    pub ms: Vec<(Vec<T>, Vec<T>)>,
    pub conv_out1_w: Vec<T>,
    pub conv_out1_b: Vec<T>,
    /// Attention over the plane, the finest first.
    pub gdt: Vec<GdtConv<T>>,
}

/// The steps by which what the image goes through is loaded.
#[verifier::opaque]
pub open spec fn ipt_steps<T: Scalar>() -> Seq<Step> {
    SimpleConvs::<T>::steps("decoder.ipt_blk1"@) + SimpleConvs::<T>::steps("decoder.ipt_blk2"@)
        + SimpleConvs::<T>::steps("decoder.ipt_blk3"@) + SimpleConvs::<T>::steps(
        "decoder.ipt_blk4"@,
    ) + SimpleConvs::<T>::steps("decoder.ipt_blk5"@)
}

/// What the image goes through is what the weights hold.
pub open spec fn ipt_loaded<T: Scalar>(ipt: Seq<SimpleConvs<T>>, w: Checkpoint) -> bool {
    &&& ipt.len() == 5
    &&& ipt[0].loaded(w, "decoder.ipt_blk1"@)
    &&& ipt[1].loaded(w, "decoder.ipt_blk2"@)
    &&& ipt[2].loaded(w, "decoder.ipt_blk3"@)
    &&& ipt[3].loaded(w, "decoder.ipt_blk4"@)
    &&& ipt[4].loaded(w, "decoder.ipt_blk5"@)
}

fn load_ipt<T: Scalar>(wts: &Weights) -> (r: Result<Vec<SimpleConvs<T>>, WeightsError>)
    requires
        wts.wf(),
    ensures
        match r {
            Ok(v) => clear(wts@, ipt_steps::<T>()) && ipt_loaded(v@, wts@),
            Err(e) => fails_with(wts@, ipt_steps::<T>(), e@),
        },
{
    reveal(ipt_steps);
    let i1: SimpleConvs<T> = match SimpleConvs::load(wts, "decoder.ipt_blk1") {
        Err(e) => {
            return Err(e);
        },
        Ok(v) => v,
    };
    let i2: SimpleConvs<T> = match SimpleConvs::load(wts, "decoder.ipt_blk2") {
        Err(e) => {
            return Err(e);
        },
        Ok(v) => v,
    };
    let i3: SimpleConvs<T> = match SimpleConvs::load(wts, "decoder.ipt_blk3") {
        Err(e) => {
            return Err(e);
        },
        Ok(v) => v,
    };
    let i4: SimpleConvs<T> = match SimpleConvs::load(wts, "decoder.ipt_blk4") {
        Err(e) => {
            return Err(e);
        },
        Ok(v) => v,
    };
    let i5: SimpleConvs<T> = match SimpleConvs::load(wts, "decoder.ipt_blk5") {
        Err(e) => {
            return Err(e);
        },
        Ok(v) => v,
    };
    let v = vec![i1, i2, i3, i4, i5];
    Ok(v)
}

/// The steps by which the blocks are loaded.
#[verifier::opaque]
pub open spec fn dec_steps<T: Scalar>() -> Seq<Step> {
    BasicDecBlk::<T>::steps("decoder.decoder_block1"@) + BasicDecBlk::<T>::steps(
        "decoder.decoder_block2"@,
    ) + BasicDecBlk::<T>::steps("decoder.decoder_block3"@) + BasicDecBlk::<T>::steps(
        "decoder.decoder_block4"@,
    )
}

/// The blocks are those that the weights hold.
pub open spec fn dec_loaded<T: Scalar>(blocks: Seq<BasicDecBlk<T>>, w: Checkpoint) -> bool {
    &&& blocks.len() == 4
    &&& blocks[0].loaded(w, "decoder.decoder_block1"@)
    &&& blocks[1].loaded(w, "decoder.decoder_block2"@)
    &&& blocks[2].loaded(w, "decoder.decoder_block3"@)
    &&& blocks[3].loaded(w, "decoder.decoder_block4"@)
}

fn load_dec<T: Scalar>(wts: &Weights) -> (r: Result<Vec<BasicDecBlk<T>>, WeightsError>)
    requires
        wts.wf(),
    ensures
        match r {
            Ok(v) => clear(wts@, dec_steps::<T>()) && dec_loaded(v@, wts@),
            Err(e) => fails_with(wts@, dec_steps::<T>(), e@),
        },
{
    reveal(dec_steps);
    let b1: BasicDecBlk<T> = match BasicDecBlk::load(wts, "decoder.decoder_block1") {
        Err(e) => {
            return Err(e);
        },
        Ok(v) => v,
    };
    let b2: BasicDecBlk<T> = match BasicDecBlk::load(wts, "decoder.decoder_block2") {
        Err(e) => {
            return Err(e);
        },
        Ok(v) => v,
    };
    let b3: BasicDecBlk<T> = match BasicDecBlk::load(wts, "decoder.decoder_block3") {
        Err(e) => {
            return Err(e);
        },
        Ok(v) => v,
    };
    let b4: BasicDecBlk<T> = match BasicDecBlk::load(wts, "decoder.decoder_block4") {
        Err(e) => {
            return Err(e);
        },
        Ok(v) => v,
    };
    let v = vec![b1, b2, b3, b4];
    Ok(v)
}

/// The steps by which attention over the plane is loaded.
#[verifier::opaque]
pub open spec fn gdt_steps<T: Scalar>() -> Seq<Step> {
    GdtConv::<T>::steps(2) + GdtConv::<T>::steps(3) + GdtConv::<T>::steps(4)
}

/// Attention over the plane is the one that the weights hold.
pub open spec fn gdt_loaded<T: Scalar>(gdt: Seq<GdtConv<T>>, w: Checkpoint) -> bool {
    &&& gdt.len() == 3
    &&& gdt[0].loaded(w, 2)
    &&& gdt[1].loaded(w, 3)
    &&& gdt[2].loaded(w, 4)
}

fn load_gdt<T: Scalar>(wts: &Weights) -> (r: Result<Vec<GdtConv<T>>, WeightsError>)
    requires
        wts.wf(),
    ensures
        match r {
            Ok(v) => clear(wts@, gdt_steps::<T>()) && gdt_loaded(v@, wts@),
            Err(e) => fails_with(wts@, gdt_steps::<T>(), e@),
        },
{
    reveal(gdt_steps);
    let g2: GdtConv<T> = match GdtConv::load(wts, 2) {
        Err(e) => {
            return Err(e);
        },
        Ok(v) => v,
    };
    let g3: GdtConv<T> = match GdtConv::load(wts, 3) {
        Err(e) => {
            return Err(e);
        },
        Ok(v) => v,
    };
    let g4: GdtConv<T> = match GdtConv::load(wts, 4) {
        Err(e) => {
            return Err(e);
        },
        Ok(v) => v,
    };
    let v = vec![g2, g3, g4];
    Ok(v)
}

/// The steps by which a weight and a bias are read.
#[verifier::opaque]
pub open spec fn pair_steps(prefix: Seq<char>) -> Seq<Step> {
    reads(prefix + ".weight"@) + reads(prefix + ".bias"@)
}

/// The pair is the weight and the bias that the weights hold under this prefix.
pub open spec fn pair_loaded<T: Scalar>(
    a: Seq<T>,
    b: Seq<T>,
    w: Checkpoint,
    prefix: Seq<char>,
) -> bool {
    forall|m: Arith<T>| #[trigger]
        computes(m) ==> a == data(m, w, prefix + ".weight"@) && b == data(
            m,
            w,
            prefix + ".bias"@,
        )
}

fn load_pair<T: Scalar>(wts: &Weights, prefix: &str) -> (r: Result<(Vec<T>, Vec<T>), WeightsError>)
    requires
        wts.wf(),
    ensures
        match r {
            Ok((a, b)) => clear(wts@, pair_steps(prefix@)) && pair_loaded(a@, b@, wts@, prefix@),
            Err(e) => fails_with(wts@, pair_steps(prefix@), e@),
        },
{
    reveal(pair_steps);
    let a: Vec<T> = match wts.get(joined(prefix, ".weight").as_str()) {
        Err(e) => {
            return Err(e);
        },
        Ok(v) => v,
    };
    let b: Vec<T> = match wts.get(joined(prefix, ".bias").as_str()) {
        Err(e) => {
            return Err(e);
        },
        Ok(v) => v,
    };
    Ok((a, b))
}

impl<T: Scalar> Decoder<T> {
    /// The steps by which the decoder is loaded.
    #[verifier::opaque]
    pub open spec fn steps() -> Seq<Step> {
        ipt_steps::<T>() + dec_steps::<T>() + pair_steps("decoder.lateral_block2.conv"@)
            + pair_steps("decoder.lateral_block3.conv"@) + pair_steps(
            "decoder.lateral_block4.conv"@,
        ) + pair_steps("decoder.conv_ms_spvn_2"@) + pair_steps("decoder.conv_ms_spvn_3"@)
            + pair_steps("decoder.conv_ms_spvn_4"@) + pair_steps("decoder.conv_out1.0"@)
            + gdt_steps::<T>()
    }

    /// The decoder is the one that the weights hold.
    #[verifier::opaque]
    pub open spec fn loaded(self, w: Checkpoint) -> bool {
        &&& ipt_loaded(self.ipt@, w)
        &&& dec_loaded(self.blocks@, w)
        &&& pair_loaded(self.lat2@, self.lat2b@, w, "decoder.lateral_block2.conv"@)
        &&& pair_loaded(self.lat3@, self.lat3b@, w, "decoder.lateral_block3.conv"@)
        &&& pair_loaded(self.lat4@, self.lat4b@, w, "decoder.lateral_block4.conv"@)
        &&& self.ms@.len() == 3
        &&& pair_loaded(self.ms@[0].0@, self.ms@[0].1@, w, "decoder.conv_ms_spvn_2"@)
        &&& pair_loaded(self.ms@[1].0@, self.ms@[1].1@, w, "decoder.conv_ms_spvn_3"@)
        &&& pair_loaded(self.ms@[2].0@, self.ms@[2].1@, w, "decoder.conv_ms_spvn_4"@)
        &&& pair_loaded(self.conv_out1_w@, self.conv_out1_b@, w, "decoder.conv_out1.0"@)
        &&& gdt_loaded(self.gdt@, w)
    }

    /// The decoder has all its parts.
    pub open spec fn complete(self) -> bool {
        &&& self.ipt@.len() == 5
        &&& self.blocks@.len() == 4
        &&& self.ms@.len() == 3
        &&& self.gdt@.len() == 3
    }

    /// Loads the decoder.
    pub fn load(wts: &Weights) -> (r: Result<Decoder<T>, WeightsError>)
        requires
            wts.wf(),
        ensures
            match r {
                Ok(d) => clear(wts@, Self::steps()) && d.loaded(wts@) && d.complete(),
                Err(e) => fails_with(wts@, Self::steps(), e@),
            },
    {
        reveal(Decoder::steps);
        reveal(Decoder::loaded);
        let ipt: Vec<SimpleConvs<T>> = match load_ipt(wts) {
            Err(e) => {
                return Err(e);
            },
            Ok(v) => v,
        };
        let blocks: Vec<BasicDecBlk<T>> = match load_dec(wts) {
            Err(e) => {
                return Err(e);
            },
            Ok(v) => v,
        };
        let (lat2, lat2b): (Vec<T>, Vec<T>) = match load_pair(wts, "decoder.lateral_block2.conv") {
            Err(e) => {
                return Err(e);
            },
            Ok(v) => v,
        };
        let (lat3, lat3b): (Vec<T>, Vec<T>) = match load_pair(wts, "decoder.lateral_block3.conv") {
            Err(e) => {
                return Err(e);
            },
            Ok(v) => v,
        };
        let (lat4, lat4b): (Vec<T>, Vec<T>) = match load_pair(wts, "decoder.lateral_block4.conv") {
            Err(e) => {
                return Err(e);
            },
            Ok(v) => v,
        };
        let ms2: (Vec<T>, Vec<T>) = match load_pair(wts, "decoder.conv_ms_spvn_2") {
            Err(e) => {
                return Err(e);
            },
            Ok(v) => v,
        };
        let ms3: (Vec<T>, Vec<T>) = match load_pair(wts, "decoder.conv_ms_spvn_3") {
            Err(e) => {
                return Err(e);
            },
            Ok(v) => v,
        };
        let ms4: (Vec<T>, Vec<T>) = match load_pair(wts, "decoder.conv_ms_spvn_4") {
            Err(e) => {
                return Err(e);
            },
            Ok(v) => v,
        };
        let (conv_out1_w, conv_out1_b): (Vec<T>, Vec<T>) = match load_pair(
            wts,
            "decoder.conv_out1.0",
        ) {
            Err(e) => {
                return Err(e);
            },
            Ok(v) => v,
        };
        let gdt: Vec<GdtConv<T>> = match load_gdt(wts) {
            Err(e) => {
                return Err(e);
            },
            Ok(v) => v,
        };
        let ms = vec![ms2, ms3, ms4];
        Ok(
            Decoder {
                ipt,
                blocks,
                lat2,
                lat2b,
                lat3,
                lat3b,
                lat4,
                lat4b,
                ms,
                conv_out1_w,
                conv_out1_b,
                gdt,
            },
        )
    }
}

// ---- the whole network ----------------------------------------------------------------

/// The network.
#[derive(Debug)]
pub struct Rmbg<T> {
    pub stages: Vec<SwinStage<T>>,
    pub pe_norm_w: Vec<T>,
    pub pe_norm_b: Vec<T>,
    pub proj_w: Vec<T>,
    pub proj_b: Vec<T>,
    pub norm_w: Vec<Vec<T>>,
    pub norm_b: Vec<Vec<T>>,
    pub squeeze: BasicDecBlk<T>,
    pub decoder: Decoder<T>,
}

/// The steps by which the first `n` stages are loaded.
pub open spec fn stages_steps<T: Scalar>(n: int) -> Seq<Step>
    decreases n,
{
    if n <= 0 {
        Seq::empty()
    } else {
        stages_steps::<T>(n - 1) + SwinStage::<T>::steps(n - 1)
    }
}

/// The prefix of the norm behind a stage.
pub open spec fn norm_prefix(stage: int) -> Seq<char> {
    "bb.norm"@ + number_text(stage)
}

/// The steps by which the norms behind the first `n` stages are loaded.
pub open spec fn norms_steps(n: int) -> Seq<Step>
    decreases n,
{
    if n <= 0 {
        Seq::empty()
    } else {
        norms_steps(n - 1) + pair_steps(norm_prefix(n - 1))
    }
}

proof fn lemma_stages_fail<T: Scalar>(
    w: Checkpoint,
    k: int,
    n: int,
    p: crate::weights::Problem<Seq<u8>, Seq<usize>>,
)
    requires
        0 <= k <= n,
        fails_with(w, stages_steps::<T>(k), p),
    ensures
        fails_with(w, stages_steps::<T>(n), p),
    decreases n - k,
{
    if k < n {
        assert(fails_with(w, stages_steps::<T>(k + 1), p));
        lemma_stages_fail::<T>(w, k + 1, n, p);
    }
}

proof fn lemma_norms_fail(
    w: Checkpoint,
    k: int,
    n: int,
    p: crate::weights::Problem<Seq<u8>, Seq<usize>>,
)
    requires
        0 <= k <= n,
        fails_with(w, norms_steps(k), p),
    ensures
        fails_with(w, norms_steps(n), p),
    decreases n - k,
{
    if k < n {
        assert(fails_with(w, norms_steps(k + 1), p));
        lemma_norms_fail(w, k + 1, n, p);
    }
}

fn load_stages<T: Scalar>(wts: &Weights) -> (r: Result<Vec<SwinStage<T>>, WeightsError>)
    requires
        wts.wf(),
    ensures
        match r {
            Ok(v) => {
                &&& clear(wts@, stages_steps::<T>(4))
                &&& v@.len() == 4
                &&& forall|s: int| 0 <= s < 4 ==> (#[trigger] v@[s]).loaded(wts@, s)
            },
            Err(e) => fails_with(wts@, stages_steps::<T>(4), e@),
        },
{
    let mut v: Vec<SwinStage<T>> = Vec::with_capacity(4);
    let mut s: usize = 0;
    while s < 4
        invariant
            wts.wf(),
            s <= 4,
            v@.len() == s,
            clear(wts@, stages_steps::<T>(s as int)),
            forall|k: int| 0 <= k < s ==> (#[trigger] v@[k]).loaded(wts@, k),
        decreases 4 - s,
    {
        match SwinStage::load(wts, s) {
            Err(e) => {
                proof {
                    assert(fails_with(wts@, stages_steps::<T>(s + 1), e@));
                    lemma_stages_fail::<T>(wts@, s + 1, 4, e@);
                }
                return Err(e);
            },
            Ok(stage) => {
                v.push(stage);
            },
        }
        assert(clear(wts@, stages_steps::<T>(s + 1)));
        s += 1;
    }
    Ok(v)
}

fn load_norms<T: Scalar>(wts: &Weights) -> (r: Result<(Vec<Vec<T>>, Vec<Vec<T>>), WeightsError>)
    requires
        wts.wf(),
    ensures
        match r {
            Ok((a, b)) => {
                &&& clear(wts@, norms_steps(4))
                &&& a@.len() == 4 && b@.len() == 4
                &&& forall|s: int|
                    0 <= s < 4 ==> pair_loaded(
                        (#[trigger] a@[s])@,
                        b@[s]@,
                        wts@,
                        norm_prefix(s),
                    )
            },
            Err(e) => fails_with(wts@, norms_steps(4), e@),
        },
{
    let mut a: Vec<Vec<T>> = Vec::with_capacity(4);
    let mut b: Vec<Vec<T>> = Vec::with_capacity(4);
    let mut s: usize = 0;
    while s < 4
        invariant
            wts.wf(),
            s <= 4,
            a@.len() == s,
            b@.len() == s,
            clear(wts@, norms_steps(s as int)),
            forall|k: int|
                0 <= k < s ==> pair_loaded((#[trigger] a@[k])@, b@[k]@, wts@, norm_prefix(k)),
        decreases 4 - s,
    {
        let prefix = numbered("bb.norm", s, "");
        proof {
            reveal_strlit("");
            assert(prefix@ =~= norm_prefix(s as int));
        }
        match load_pair(wts, prefix.as_str()) {
            Err(e) => {
                proof {
                    assert(fails_with(wts@, norms_steps(s + 1), e@));
                    lemma_norms_fail(wts@, s + 1, 4, e@);
                }
                return Err(e);
            },
            Ok((x, y)) => {
                a.push(x);
                b.push(y);
            },
        }
        assert(clear(wts@, norms_steps(s + 1)));
        s += 1;
    }
    Ok((a, b))
}

/// The shape of the weights of the patch embedding.
pub open spec fn proj_shape() -> Seq<usize> {
    seq![192, 3, 4, 4]
}

impl<T: Scalar> Rmbg<T> {
    /// The steps by which the network is loaded.
    #[verifier::opaque]
    pub open spec fn steps() -> Seq<Step> {
        stages_steps::<T>(4) + norms_steps(4) + pair_steps("bb.patch_embed.norm"@) + seq![
            Step::Shaped("bb.patch_embed.proj.weight"@, proj_shape()),
        ] + seq![Step::Shaped("bb.patch_embed.proj.bias"@, seq![192])] + BasicDecBlk::<T>::steps(
            "squeeze_module.0"@,
        ) + Decoder::<T>::steps()
    }

    /// The network is the one that the weights hold.
    #[verifier::opaque]
    pub open spec fn loaded(self, w: Checkpoint) -> bool {
        &&& forall|s: int| 0 <= s < 4 ==> (#[trigger] self.stages@[s]).loaded(w, s)
        &&& forall|s: int|
            0 <= s < 4 ==> pair_loaded(
                (#[trigger] self.norm_w@[s])@,
                self.norm_b@[s]@,
                w,
                norm_prefix(s),
            )
        &&& pair_loaded(self.pe_norm_w@, self.pe_norm_b@, w, "bb.patch_embed.norm"@)
        &&& pair_loaded(self.proj_w@, self.proj_b@, w, "bb.patch_embed.proj"@)
        &&& self.squeeze.loaded(w, "squeeze_module.0"@)
        &&& self.decoder.loaded(w)
    }

    /// The network has all its parts.
    pub open spec fn complete(self) -> bool {
        &&& self.stages@.len() == 4
        &&& self.norm_w@.len() == 4
        &&& self.norm_b@.len() == 4
        &&& self.decoder.complete()
    }

    /// Loads the network.
    pub fn load(wts: &Weights) -> (r: Result<Rmbg<T>, WeightsError>)
        requires
            wts.wf(),
        ensures
            match r {
                Ok(n) => clear(wts@, Self::steps()) && n.loaded(wts@) && n.complete(),
                Err(e) => fails_with(wts@, Self::steps(), e@),
            },
    {
        reveal(Rmbg::steps);
        reveal(Rmbg::loaded);
        let stages: Vec<SwinStage<T>> = match load_stages(wts) {
            Err(e) => {
                return Err(e);
            },
            Ok(v) => v,
        };
        let (norm_w, norm_b): (Vec<Vec<T>>, Vec<Vec<T>>) = match load_norms(wts) {
            Err(e) => {
                return Err(e);
            },
            Ok(v) => v,
        };
        let (pe_norm_w, pe_norm_b): (Vec<T>, Vec<T>) = match load_pair(wts, "bb.patch_embed.norm") {
            Err(e) => {
                return Err(e);
            },
            Ok(v) => v,
        };
        let proj_dims: Vec<usize> = vec![192, 3, 4, 4];
        let bias_dims: Vec<usize> = vec![192];
        proof {
            assert(proj_dims@ =~= proj_shape());
            assert(bias_dims@ =~= seq![192usize]);
            reveal_strlit("bb.patch_embed.proj");
            reveal_strlit(".weight");
            reveal_strlit(".bias");
            reveal_strlit("bb.patch_embed.proj.weight");
            reveal_strlit("bb.patch_embed.proj.bias");
            assert("bb.patch_embed.proj"@ + ".weight"@ =~= "bb.patch_embed.proj.weight"@);
            assert("bb.patch_embed.proj"@ + ".bias"@ =~= "bb.patch_embed.proj.bias"@);
        }
        let proj_w: Vec<T> = match wts.get_shaped("bb.patch_embed.proj.weight", &proj_dims) {
            Err(e) => {
                return Err(e);
            },
            Ok(v) => v,
        };
        let proj_b: Vec<T> = match wts.get_shaped("bb.patch_embed.proj.bias", &bias_dims) {
            Err(e) => {
                return Err(e);
            },
            Ok(v) => v,
        };
        let squeeze: BasicDecBlk<T> = match BasicDecBlk::load(wts, "squeeze_module.0") {
            Err(e) => {
                return Err(e);
            },
            Ok(v) => v,
        };
        let decoder: Decoder<T> = match Decoder::load(wts) {
            Err(e) => {
                return Err(e);
            },
            Ok(v) => v,
        };
        Ok(
            Rmbg {
                stages,
                pe_norm_w,
                pe_norm_b,
                proj_w,
                proj_b,
                norm_w,
                norm_b,
                squeeze,
                decoder,
            },
        )
    }
}

} // verus!
