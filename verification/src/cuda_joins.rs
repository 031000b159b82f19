//! What is joined on the device.

use crate::cuda::{extends, keeps, lemma_same_keeps, DTensor, Dw, Mark, Plan};
use crate::cuda_forward::lemma_ipt_input_keeps;
use crate::cuda_graph::{
    attended_plan, back, entered_plan, roll_plan, swin_block_plan, CudaAttn, CudaLayerNorm, CudaMlp,
    CudaSwinBlock,
};
use crate::cuda_net::CudaDecoder;
use crate::cuda_ops::{
    add_inplace_plan, conv_plan, mul_broadcast_channel_plan, resize_bilinear_plan,
};
use crate::dump::Wish;
use crate::swin::pad_up;
use vstd::prelude::*;

verus! {

/// On the way down through the decoder, scale `k` of the device adds to its own features, weighed
/// with its attention and brought to the size of the features `e` of the finer scale, the 1x1
/// convolution of `e` with the lateral weights; all further commands come behind.
pub proof fn lemma_device_adds_lateral(
    d: &CudaDecoder,
    p: Plan,
    k: int,
    lat: Dw,
    lat_b: Dw,
    e: DTensor,
    x: DTensor,
    pk: DTensor,
    dump: Wish,
    attn: DTensor,
    up: DTensor,
    side: DTensor,
    weighed: Plan,
    resized: Plan,
    mapped: Plan,
)
    requires
        ({
            let (w, b) = d.ms@[k - 1];
            let (q, gate) = d.gdt@[k - 1].plan(conv_plan(p, pk, w@, b.buf, 1, false).0, pk);
            attn == gate && weighed == mul_broadcast_channel_plan(q, pk, attn)
        }),
        (resized, up) == resize_bilinear_plan(weighed, pk, e.h, e.w, true),
        (mapped, side) == conv_plan(resized, e, lat, lat_b.buf, 1, false),
    ensures
        extends(
            add_inplace_plan(mapped, up, side).0,
            d.descend_plan(p, k, lat, lat_b, e, x, pk, dump).0,
        ),
{
    broadcast use {
        crate::cuda::group_keeps,
        crate::cuda_ops::group_keeps_ops,
        crate::cuda_net::group_keeps_net,
        lemma_ipt_input_keeps,
    };

    let q = add_inplace_plan(mapped, up, side).0;
    lemma_same_keeps(q);
    reveal(CudaDecoder::descend_plan);
    assert(keeps(Mark::After(q), d.descend_plan(p, k, lat, lat_b, e, x, pk, dump).0));
    reveal(keeps);
}

/// A block of the device that turns its grid round turns it back by what is missing to whole
/// rounds, behind the attention and before anything is added; all further commands come behind.
pub proof fn lemma_device_turns_back(
    p: Plan,
    blk: CudaSwinBlock,
    attn: &CudaAttn,
    ln1: &CudaLayerNorm,
    ln2: &CudaLayerNorm,
    mlp: &CudaMlp,
    x: DTensor,
    h: usize,
    w: usize,
    hp: usize,
    wp: usize,
    mask: Option<usize>,
    dbg: Option<(Wish, Seq<char>)>,
    y: DTensor,
    shifted: DTensor,
    merged: DTensor,
    attended: Plan,
)
    requires
        h <= hp < h + 12,
        w <= wp < w + 12,
        hp % 12 == 0,
        wp % 12 == 0,
        0 < blk.shift <= hp,
        hp * wp <= usize::MAX,
        0 < hp,
        ({
            let (q, n, s) = entered_plan(p, blk.shift, ln1, x, h, w);
            &&& n == y
            &&& s == shifted
            &&& (attended, merged) == attended_plan(q, attn, y, shifted, x.c, hp, wp, mask, dbg)
        }),
    ensures
        extends(
            roll_plan(attended, merged, x.c, hp, wp, back(hp, wp, blk.shift)).0,
            swin_block_plan(p, blk, attn, ln1, ln2, mlp, x, h, w, mask, dbg).0,
        ),
{
    broadcast use {
        crate::cuda::group_keeps,
        crate::cuda_ops::group_keeps_ops,
        crate::cuda_graph::group_keeps_graph,
    };

    assert(pad_up(h as int) == hp && pad_up(w as int) == wp);
    let q = roll_plan(attended, merged, x.c, hp, wp, back(hp, wp, blk.shift)).0;
    lemma_same_keeps(q);
    reveal(swin_block_plan);
    assert(keeps(
        Mark::After(q),
        swin_block_plan(p, blk, attn, ln1, ln2, mlp, x, h, w, mask, dbg).0,
    ));
    reveal(keeps);
}

} // verus!
