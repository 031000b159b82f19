//! What is written of a pass on the device, and what is written of one on the processor.

use crate::cuda::{
    dump_plan, keeps, lemma_dump_saves, lemma_part_saves, provided, saved, upload_plan, wanted,
    wanted_part, DTensor, Dw, Mark, Plan, Source,
};
use crate::cuda_forward::{
    backbone_plan, context_plan, decoder_plan, forward_enc_plan, forward_plan, ipt_input_plan,
    lateral_plan, stages_plan, Progress,
};
use crate::cuda_load::{stages_at, Store};
use crate::cuda_net::{
    mask_plan, patch_embed_plan, swin_stage_plan, CudaDecoder, CudaSwinStage, CudaWeights,
};
use crate::cuda_ops::{
    add_inplace_plan, cat_plan, conv_plan, mul_broadcast_channel_plan, resize_bilinear_plan,
};
use crate::dump::{Entry, Wish};
use crate::model::Rmbg;
use crate::scalar::{Arith, Scalar};
use crate::swin::{block_name, downsample_name, part_written, Ask, SwinStage, DEPTHS};
use crate::tensor::Img;
use crate::weights::Checkpoint;
use crate::words::{digit_char, number_text};
use vstd::prelude::*;

verus! {

// ---- the names that a pass writes, in order -------------------------------------------

/// Of the first `n` blocks of a stage.
pub open spec fn block_list(dump: Wish, tag: Seq<char>, stage: int, n: int) -> Seq<Seq<char>>
    decreases n,
{
    if n <= 0 {
        Seq::empty()
    } else {
        block_list(dump, tag, stage, n - 1) + wanted_part(dump, block_name(tag, stage, n - 1))
    }
}

/// Of a stage: of its blocks, and of what it hands to the next.
pub open spec fn stage_list(dump: Wish, tag: Seq<char>, stage: int) -> Seq<Seq<char>> {
    let blocks = block_list(dump, tag, stage, DEPTHS@[stage] as int);
    if stage < 3 {
        blocks + wanted_part(dump, downsample_name(tag, stage))
    } else {
        blocks
    }
}

/// Of the first `n` stages.
pub open spec fn stages_list(dump: Wish, tag: Seq<char>, n: int) -> Seq<Seq<char>>
    decreases n,
{
    if n <= 0 {
        Seq::empty()
    } else {
        stages_list(dump, tag, n - 1) + stage_list(dump, tag, n - 1)
    }
}

/// Of a pass through the backbone.
pub open spec fn backbone_list(dump: Wish, tag: Seq<char>) -> Seq<Seq<char>> {
    wanted(dump, tag + "_patch_embed_norm"@) + stages_list(dump, tag, 4)
}

/// Of the first `n` stages of both sizes of the image, put together.
pub open spec fn laterals_list(dump: Wish, n: int) -> Seq<Seq<char>>
    decreases n,
{
    if n <= 0 {
        Seq::empty()
    } else {
        laterals_list(dump, n - 1) + wanted(dump, "bb_stage"@ + number_text(n - 1))
    }
}

/// Of the encoder.
pub open spec fn encoder_list(dump: Wish) -> Seq<Seq<char>> {
    backbone_list(dump, "full"@) + wanted(dump, "half_input"@) + wanted(dump, "norm_input"@)
        + backbone_list(dump, "half"@) + laterals_list(dump, 4) + wanted(dump, "cxt_x4"@)
}

/// Of block `k` of the decoder and the tiles that go into it.
pub open spec fn refine_list(dump: Wish, k: int) -> Seq<Seq<char>> {
    wanted(dump, "ipt_blk"@ + number_text(k + 2)) + wanted(
        dump,
        "decoder_block"@ + number_text(k + 1),
    )
}

/// Of the decoder up to its last block.
pub open spec fn way_list(dump: Wish) -> Seq<Seq<char>> {
    wanted(dump, "squeeze_module"@) + refine_list(dump, 3) + refine_list(dump, 2) + refine_list(
        dump,
        1,
    ) + refine_list(dump, 0)
}

/// Behind the last block.
pub open spec fn end_list(dump: Wish) -> Seq<Seq<char>> {
    wanted(dump, "ipt_blk1"@) + wanted(dump, "conv_out1"@) + wanted(dump, "pred0"@) + wanted(
        dump,
        "pred1"@,
    ) + wanted(dump, "pred2"@) + wanted(dump, "pred3"@)
}

/// Of a pass through the network.
pub open spec fn pass_list(dump: Wish) -> Seq<Seq<char>> {
    wanted(dump, "input"@) + encoder_list(dump) + way_list(dump) + end_list(dump)
}

// ---- on the processor -----------------------------------------------------------------

/// The names of tensors that are written.
pub open spec fn names_of<T>(s: Seq<Entry<T>>) -> Seq<Seq<char>> {
    s.map_values(|e: Entry<T>| e.name)
}

broadcast proof fn lemma_names_both<T>(a: Seq<Entry<T>>, b: Seq<Entry<T>>)
    ensures
        #[trigger] names_of(a + b) == names_of(a) + names_of(b),
{
    assert(names_of(a + b) =~= names_of(a) + names_of(b));
}

broadcast proof fn lemma_names_one<T>(dump: Wish, name: Seq<char>, img: Img<T>)
    ensures
        #[trigger] names_of(dump.written(name, img)) == wanted(dump, name),
{
    assert(names_of(dump.written(name, img)) =~= wanted(dump, name));
}

broadcast proof fn lemma_names_none<T>()
    ensures
        #[trigger] names_of(Seq::<Entry<T>>::empty()) == Seq::<Seq<char>>::empty(),
{
    assert(names_of(Seq::<Entry<T>>::empty()) =~= Seq::<Seq<char>>::empty());
}

broadcast group group_names {
    lemma_names_both,
    lemma_names_one,
    lemma_names_none,
}

/// The ask of a pass that is written, for what is wished for.
spec fn asks(ask: Ask, dump: Wish, tag: Seq<char>) -> bool {
    ask.names == dump.parts() && ask.pass == 0 && ask.tag == tag
}

proof fn lemma_part_names<T>(
    ask: Ask,
    dump: Wish,
    tag: Seq<char>,
    name: Seq<char>,
    tokens: Seq<T>,
    c: int,
)
    requires
        asks(ask, dump, tag),
    ensures
        names_of(part_written(ask, name, tokens, c)) == wanted_part(dump, name),
{
    assert(names_of(part_written(ask, name, tokens, c)) =~= wanted_part(dump, name));
}

proof fn lemma_block_names<T: Scalar>(
    st: SwinStage<T>,
    m: Arith<T>,
    x: Seq<T>,
    h: usize,
    w: usize,
    stage: int,
    ask: Ask,
    dump: Wish,
    tag: Seq<char>,
    n: int,
)
    requires
        asks(ask, dump, tag),
    ensures
        names_of(st.blocks_written(m, x, h, w, stage, Some(ask), n)) == block_list(
            dump,
            tag,
            stage,
            n,
        ),
    decreases n,
{
    broadcast use group_names;

    if n > 0 {
        lemma_block_names(st, m, x, h, w, stage, ask, dump, tag, n - 1);
        lemma_part_names(
            ask,
            dump,
            tag,
            block_name(tag, stage, n - 1),
            st.blocks_out(m, x, h, w, n),
            ask.features,
        );
    }
}

proof fn lemma_stage_names<T: Scalar>(
    st: SwinStage<T>,
    m: Arith<T>,
    x: Seq<T>,
    h: usize,
    ww: usize,
    stage: int,
    ask: Ask,
    dump: Wish,
    tag: Seq<char>,
)
    requires
        asks(ask, dump, tag),
        st.blocks@.len() == DEPTHS@[stage],
        st.steps_down() == (stage < 3),
    ensures
        names_of(st.written(m, x, h, ww, 1, stage, Some(ask))) == stage_list(dump, tag, stage),
{
    broadcast use group_names;

    lemma_block_names(st, m, x, h, ww, stage, ask, dump, tag, st.blocks@.len() as int);
    lemma_part_names(
        ask,
        dump,
        tag,
        downsample_name(tag, stage),
        st.down(m, x, h, ww, 1),
        2 * (x.len() as int / (1 * (h * ww))),
    );
}

/// Every stage has its blocks, and all but the last hand on to the next.
spec fn staged<T: Scalar>(net: Rmbg<T>) -> bool {
    forall|s: int|
        0 <= s < 4 ==> (#[trigger] net.stages@[s]).blocks@.len() == DEPTHS@[s]
            && net.stages@[s].steps_down() == (s < 3)
}

proof fn lemma_staged<T: Scalar>(net: Rmbg<T>, w: Checkpoint)
    requires
        net.loaded(w),
    ensures
        staged(net),
{
    reveal(Rmbg::loaded);
    assert forall|s: int| 0 <= s < 4 implies (#[trigger] net.stages@[s]).blocks@.len() == DEPTHS@[s]
        && net.stages@[s].steps_down() == (s < 3) by {
        assert(net.stages@[s].loaded(w, s));
    }
}

proof fn lemma_stages_names<T: Scalar>(
    net: Rmbg<T>,
    m: Arith<T>,
    x: Img<T>,
    tag: Seq<char>,
    dump: Wish,
    n: int,
)
    requires
        staged(net),
        n <= 4,
    ensures
        names_of(net.stages_written(m, x, tag, dump, n)) == stages_list(dump, tag, n),
    decreases n,
{
    if n <= 0 {
        broadcast use lemma_names_none;

    } else {
        lemma_stages_names(net, m, x, tag, dump, n - 1);
        let g = net.entering(m, x, n - 1);
        let st = net.stages@[n - 1];
        let ask = crate::backbone::stage_ask(dump, tag, n - 1);
        let before = net.stages_written(m, x, tag, dump, n - 1);
        let more = st.written(m, g.tokens, g.h, g.w, 1, n - 1, Some(ask));
        assert(net.stages_written(m, x, tag, dump, n) == before + more);
        lemma_names_both(before, more);
        lemma_stage_names(st, m, g.tokens, g.h, g.w, n - 1, ask, dump, tag);
    }
}

proof fn lemma_backbone_names<T: Scalar>(
    net: Rmbg<T>,
    m: Arith<T>,
    x: Img<T>,
    tag: Seq<char>,
    dump: Wish,
)
    requires
        staged(net),
    ensures
        names_of(net.backbone_written(m, x, tag, dump)) == backbone_list(dump, tag),
{
    broadcast use group_names;

    reveal(Rmbg::backbone_written);
    lemma_stages_names(net, m, x, tag, dump, 4);
}

proof fn lemma_laterals_names<T: Scalar>(
    net: Rmbg<T>,
    m: Arith<T>,
    x: Img<T>,
    dump: Wish,
    n: int,
)
    ensures
        names_of(net.laterals_written(m, x, dump, n)) == laterals_list(dump, n),
    decreases n,
{
    broadcast use group_names;

    if n > 0 {
        lemma_laterals_names(net, m, x, dump, n - 1);
    }
}

/// A pass on the processor writes these names.
pub proof fn lemma_names_written<T: Scalar>(
    net: Rmbg<T>,
    w: Checkpoint,
    m: Arith<T>,
    x: Img<T>,
    dump: Wish,
)
    requires
        net.loaded(w),
    ensures
        names_of(net.written(m, x, dump)) == pass_list(dump),
{
    broadcast use group_names;

    reveal(Rmbg::encoder_written);
    reveal(Rmbg::way_written);
    reveal(Rmbg::end_written);
    reveal(Rmbg::block_written);
    lemma_staged(net, w);
    lemma_backbone_names(net, m, x, "full"@, dump);
    lemma_backbone_names(net, m, crate::encoder::halved(m, x), "half"@, dump);
    lemma_laterals_names(net, m, x, dump, 4);
}

// ---- on the device --------------------------------------------------------------------

/// With these names more behind them.
proof fn lemma_more(p: Plan, a: Seq<Seq<char>>, b: Seq<Seq<char>>, c: Seq<Seq<char>>)
    requires
        keeps(Mark::Saving((a + b) + c), p),
    ensures
        keeps(Mark::Saving(a + (b + c)), p),
{
    assert((a + b) + c =~= a + (b + c));
}

/// Names one behind the other, however they are put together.
proof fn lemma_six(
    n: Seq<Seq<char>>,
    a: Seq<Seq<char>>,
    b: Seq<Seq<char>>,
    c: Seq<Seq<char>>,
    d: Seq<Seq<char>>,
    e: Seq<Seq<char>>,
    f: Seq<Seq<char>>,
)
    ensures
        n + a + b + c + d + e + f == n + (a + b + c + d + e + f),
{
    assert(n + a + b + c + d + e + f =~= n + (a + b + c + d + e + f));
}

/// Names one behind the other, however they are put together.
proof fn lemma_four(
    n: Seq<Seq<char>>,
    a: Seq<Seq<char>>,
    b: Seq<Seq<char>>,
    c: Seq<Seq<char>>,
    d: Seq<Seq<char>>,
)
    ensures
        n + a + b + c + d == n + (Seq::<Seq<char>>::empty() + a + b + c + d),
{
    assert(n + a + b + c + d =~= n + (Seq::<Seq<char>>::empty() + a + b + c + d));
}

/// The laterals of both sizes of the image, where they are asked for.
#[verifier::opaque]
spec fn laterals_saved(
    p: Plan,
    dump: Wish,
    a: DTensor,
    b: DTensor,
    c: DTensor,
    d: DTensor,
) -> Plan {
    let p = dump_plan(p, dump, "bb_stage0"@, a);
    let p = dump_plan(p, dump, "bb_stage1"@, b);
    let p = dump_plan(p, dump, "bb_stage2"@, c);
    dump_plan(p, dump, "bb_stage3"@, d)
}

proof fn lemma_laterals_save(
    names: Seq<Seq<char>>,
    p: Plan,
    dump: Wish,
    a: DTensor,
    b: DTensor,
    c: DTensor,
    d: DTensor,
)
    requires
        keeps(Mark::Saving(names), p),
    ensures
        keeps(
            Mark::Saving(names + laterals_list(dump, 4)),
            laterals_saved(p, dump, a, b, c, d),
        ),
{
    reveal(laterals_saved);
    lemma_numbered_names();
    lemma_dump_saves(names, p, dump, "bb_stage0"@, a);
    let p = dump_plan(p, dump, "bb_stage0"@, a);
    let n1 = names + wanted(dump, "bb_stage0"@);
    lemma_dump_saves(n1, p, dump, "bb_stage1"@, b);
    let p = dump_plan(p, dump, "bb_stage1"@, b);
    let n2 = n1 + wanted(dump, "bb_stage1"@);
    lemma_dump_saves(n2, p, dump, "bb_stage2"@, c);
    let p = dump_plan(p, dump, "bb_stage2"@, c);
    let n3 = n2 + wanted(dump, "bb_stage2"@);
    lemma_dump_saves(n3, p, dump, "bb_stage3"@, d);
    reveal_with_fuel(laterals_list, 5);
    lemma_four(
        names,
        wanted(dump, "bb_stage0"@),
        wanted(dump, "bb_stage1"@),
        wanted(dump, "bb_stage2"@),
        wanted(dump, "bb_stage3"@),
    );
}

proof fn lemma_blocks_save(
    names: Seq<Seq<char>>,
    p: Plan,
    st: &CudaSwinStage,
    x: DTensor,
    h: usize,
    w: usize,
    mask: Option<usize>,
    stage: int,
    tag: Seq<char>,
    dump: Wish,
    n: int,
)
    requires
        keeps(Mark::Saving(names), p),
    ensures
        keeps(
            Mark::Saving(names + block_list(dump, tag, stage, n)),
            st.blocks_plan(p, x, h, w, mask, stage, tag, dump, n).0,
        ),
    decreases n,
{
    if n <= 0 {
        assert(names + Seq::<Seq<char>>::empty() =~= names);
    } else {
        lemma_blocks_save(names, p, st, x, h, w, mask, stage, tag, dump, n - 1);
        let (q, y) = st.blocks_plan(p, x, h, w, mask, stage, tag, dump, n - 1);
        let b = n - 1;
        let so_far = names + block_list(dump, tag, stage, b);
        let mk = if st.blocks@[b].shift > 0 { mask } else { None };
        crate::cuda_graph::lemma_swin_block_keeps(
            Mark::Saving(so_far),
            q,
            st.blocks@[b],
            &st.attn@[b],
            &st.ln1@[b],
            &st.ln2@[b],
            &st.mlp@[b],
            y,
            h,
            w,
            mk,
            None,
        );
        let (r, z) = crate::cuda_graph::swin_block_plan(
            q,
            st.blocks@[b],
            &st.attn@[b],
            &st.ln1@[b],
            &st.ln2@[b],
            &st.mlp@[b],
            y,
            h,
            w,
            mk,
            None,
        );
        let name = block_name(tag, stage, b);
        lemma_part_saves(so_far, r, dump, name, z);
        lemma_more(
            st.blocks_plan(p, x, h, w, mask, stage, tag, dump, n).0,
            names,
            block_list(dump, tag, stage, b),
            wanted_part(dump, name),
        );
    }
}

proof fn lemma_stage_saves(
    names: Seq<Seq<char>>,
    p: Plan,
    st: &CudaSwinStage,
    wts: &CudaWeights,
    stage: usize,
    tokens: DTensor,
    h: usize,
    w: usize,
    tag: Seq<char>,
    dump: Wish,
)
    requires
        keeps(Mark::Saving(names), p),
        stage < 4,
        st.blocks@.len() == DEPTHS@[stage as int],
    ensures
        keeps(
            Mark::Saving(names + stage_list(dump, tag, stage as int)),
            swin_stage_plan(p, st, wts, stage, tokens, h, w, tag, dump).plan,
        ),
{
    broadcast use {
        crate::cuda::group_keeps,
        crate::cuda_ops::group_keeps_ops,
        crate::cuda_net::lemma_mask_keeps,
        crate::cuda_net::lemma_down_keeps,
    };

    reveal(swin_stage_plan);
    let (q, mask) = mask_plan(p, h, w);
    let n = st.blocks@.len() as int;
    let x = DTensor { c: tokens.c, h: 1, w: tokens.w, buf: tokens.buf };
    let blocks = block_list(dump, tag, stage as int, n);
    lemma_blocks_save(names, q, st, x, h, w, mask, stage as int, tag, dump, n);
    let (r, cur) = st.blocks_plan(q, x, h, w, mask, stage as int, tag, dump, n);
    let base = Mark::Saving(names + blocks);
    assert(keeps(base, r));
    if st.complete() && stage < wts.norm_w@.len() && stage < wts.norm_b@.len() && h != usize::MAX
        && w != usize::MAX {
        let (r, out) = crate::cuda_ops::layernorm_plan(
            r,
            cur,
            wts.norm_w@[stage as int]@,
            wts.norm_b@[stage as int]@,
            crate::linear::LN_EPS,
        );
        assert(keeps(base, r));
        if stage < 3 {
            let (r, down) = st.down_plan(r, cur, h, w);
            assert(keeps(base, r));
            let name = downsample_name(tag, stage as int);
            lemma_part_saves(names + blocks, r, dump, name, down);
            lemma_more(
                crate::cuda::part_plan(r, dump, name, down),
                names,
                blocks,
                wanted_part(dump, name),
            );
        }
    }
}

proof fn lemma_stages_save(
    names: Seq<Seq<char>>,
    g: Progress,
    wts: &CudaWeights,
    s: Store,
    tag: Seq<char>,
    dump: Wish,
    n: int,
)
    requires
        keeps(Mark::Saving(names), g.plan),
        stages_at(wts.stages@, s),
        0 <= n <= 4,
    ensures
        keeps(
            Mark::Saving(names + stages_list(dump, tag, n)),
            stages_plan(g, wts, tag, dump, n).plan,
        ),
    decreases n,
{
    if n <= 0 {
        assert(names + Seq::<Seq<char>>::empty() =~= names);
    } else {
        lemma_stages_save(names, g, wts, s, tag, dump, n - 1);
        let f = stages_plan(g, wts, tag, dump, n - 1);
        let so_far = names + stages_list(dump, tag, n - 1);
        let st = &wts.stages@[n - 1];
        assert(st.blocks@.len() == DEPTHS@[n - 1]) by {
            reveal(stages_at);
            reveal(CudaSwinStage::at);
        }
        let stage = (n - 1) as usize;
        lemma_stage_saves(so_far, f.plan, st, wts, stage, f.cur, f.h, f.w, tag, dump);
        let sp = swin_stage_plan(f.plan, st, wts, stage, f.cur, f.h, f.w, tag, dump);
        let list = stage_list(dump, tag, n - 1);
        crate::cuda_ops::lemma_tokens_to_nchw_keeps(
            Mark::Saving(so_far + list),
            sp.plan,
            sp.out,
            f.h,
            f.w,
        );
        lemma_more(
            stages_plan(g, wts, tag, dump, n).plan,
            names,
            stages_list(dump, tag, n - 1),
            list,
        );
    }
}

proof fn lemma_backbone_saves(
    names: Seq<Seq<char>>,
    p: Plan,
    wts: &CudaWeights,
    s: Store,
    input: DTensor,
    tag: Seq<char>,
    dump: Wish,
)
    requires
        keeps(Mark::Saving(names), p),
        stages_at(wts.stages@, s),
    ensures
        keeps(
            Mark::Saving(names + backbone_list(dump, tag)),
            backbone_plan(p, wts, input, tag, dump).0,
        ),
{
    reveal(backbone_plan);
    if wts.stages@.len() < 4 {
        crate::cuda::lemma_broken_keeps(Mark::Saving(names + backbone_list(dump, tag)));
    } else {
        let (q, tokens, h, w) = patch_embed_plan(p, wts, input);
        crate::cuda_net::lemma_patch_embed_keeps(Mark::Saving(names), p, wts, input);
        let name = tag + "_patch_embed_norm"@;
        lemma_dump_saves(names, q, dump, name, tokens);
        let q = dump_plan(q, dump, name, tokens);
        let g = Progress { plan: q, outs: Seq::empty(), cur: tokens, h, w };
        lemma_stages_save(names + wanted(dump, name), g, wts, s, tag, dump, 4);
        lemma_more(
            stages_plan(g, wts, tag, dump, 4).plan,
            names,
            wanted(dump, name),
            stages_list(dump, tag, 4),
        );
    }
}

proof fn lemma_digit(d: int)
    requires
        0 <= d < 10,
    ensures
        number_text(d) =~= seq![digit_char(d)],
{
}

/// The numbered names, written out.
proof fn lemma_numbered_names()
    ensures
        "bb_stage0"@ == "bb_stage"@ + number_text(0),
        "bb_stage1"@ == "bb_stage"@ + number_text(1),
        "bb_stage2"@ == "bb_stage"@ + number_text(2),
        "bb_stage3"@ == "bb_stage"@ + number_text(3),
        "ipt_blk5"@ == "ipt_blk"@ + number_text(5),
        "decoder_block4"@ == "decoder_block"@ + number_text(4),
{
    reveal_strlit("bb_stage");
    reveal_strlit("bb_stage0");
    reveal_strlit("bb_stage1");
    reveal_strlit("bb_stage2");
    reveal_strlit("bb_stage3");
    reveal_strlit("ipt_blk");
    reveal_strlit("ipt_blk5");
    reveal_strlit("decoder_block");
    reveal_strlit("decoder_block4");
    lemma_digit(0);
    lemma_digit(1);
    lemma_digit(2);
    lemma_digit(3);
    lemma_digit(4);
    lemma_digit(5);
    assert("bb_stage0"@ =~= "bb_stage"@ + number_text(0));
    assert("bb_stage1"@ =~= "bb_stage"@ + number_text(1));
    assert("bb_stage2"@ =~= "bb_stage"@ + number_text(2));
    assert("bb_stage3"@ =~= "bb_stage"@ + number_text(3));
    assert("ipt_blk5"@ =~= "ipt_blk"@ + number_text(5));
    assert("decoder_block4"@ =~= "decoder_block"@ + number_text(4));
}

proof fn lemma_encoder_saves(
    names: Seq<Seq<char>>,
    p: Plan,
    w: &CudaWeights,
    s: Store,
    input: DTensor,
    dump: Wish,
)
    requires
        keeps(Mark::Saving(names), p),
        stages_at(w.stages@, s),
    ensures
        keeps(
            Mark::Saving(names + encoder_list(dump)),
            forward_enc_plan(p, w, input, dump).0,
        ),
{
    let first = p;
    let n0 = names;
    lemma_backbone_saves(n0, p, w, s, input, "full"@, dump);
    let (p, full) = backbone_plan(p, w, input, "full"@, dump);
    let n1 = n0 + backbone_list(dump, "full"@);
    crate::cuda_ops::lemma_resize_bilinear_keeps(
        Mark::Saving(n1),
        p,
        input,
        input.h / 2,
        input.w / 2,
        true,
    );
    let (p, half_in) = resize_bilinear_plan(p, input, input.h / 2, input.w / 2, true);
    lemma_dump_saves(n1, p, dump, "half_input"@, half_in);
    let p = dump_plan(p, dump, "half_input"@, half_in);
    let n2 = n1 + wanted(dump, "half_input"@);
    lemma_dump_saves(n2, p, dump, "norm_input"@, input);
    let p = dump_plan(p, dump, "norm_input"@, input);
    let n3 = n2 + wanted(dump, "norm_input"@);
    lemma_backbone_saves(n3, p, w, s, half_in, "half"@, dump);
    let (p, half) = backbone_plan(p, w, half_in, "half"@, dump);
    let n4 = n3 + backbone_list(dump, "half"@);
    let base = Mark::Saving(n4);
    crate::cuda_forward::lemma_lateral_keeps(base, p, full[0], half[0]);
    let (p, a) = lateral_plan(p, full[0], half[0]);
    crate::cuda_forward::lemma_lateral_keeps(base, p, full[1], half[1]);
    let (p, b) = lateral_plan(p, full[1], half[1]);
    crate::cuda_forward::lemma_lateral_keeps(base, p, full[2], half[2]);
    let (p, c) = lateral_plan(p, full[2], half[2]);
    crate::cuda_forward::lemma_lateral_keeps(base, p, full[3], half[3]);
    let (p, d) = lateral_plan(p, full[3], half[3]);
    lemma_laterals_save(n4, p, dump, a, b, c, d);
    let q = laterals_saved(p, dump, a, b, c, d);
    let n5 = n4 + laterals_list(dump, 4);
    crate::cuda_forward::lemma_context_keeps(Mark::Saving(n5), q, a, b, c, d);
    let (r, cxt) = context_plan(q, a, b, c, d);
    lemma_dump_saves(n5, r, dump, "cxt_x4"@, cxt);
    lemma_six(
        names,
        backbone_list(dump, "full"@),
        wanted(dump, "half_input"@),
        wanted(dump, "norm_input"@),
        backbone_list(dump, "half"@),
        laterals_list(dump, 4),
        wanted(dump, "cxt_x4"@),
    );
    assert(dump_plan(r, dump, "cxt_x4"@, cxt) == forward_enc_plan(first, w, input, dump).0) by {
        reveal(forward_enc_plan);
        reveal(laterals_saved);
    }
}

proof fn lemma_start_saves(
    names: Seq<Seq<char>>,
    p: Plan,
    dec: &CudaDecoder,
    x4: DTensor,
    x: DTensor,
    dump: Wish,
)
    requires
        keeps(Mark::Saving(names), p),
    ensures
        keeps(
            Mark::Saving(names + (wanted(dump, "squeeze_module"@) + refine_list(dump, 3))),
            dec.start_plan(p, x4, x, dump).0,
        ),
{
    reveal(CudaDecoder::start_plan);
    lemma_numbered_names();
    lemma_dump_saves(names, p, dump, "squeeze_module"@, x4);
    let p = dump_plan(p, dump, "squeeze_module"@, x4);
    let n1 = names + wanted(dump, "squeeze_module"@);
    crate::cuda_forward::lemma_ipt_input_keeps(Mark::Saving(n1), p, x, x4.h, x4.w);
    let (p, tiles) = ipt_input_plan(p, x, x4.h, x4.w);
    crate::cuda_net::lemma_simple_keeps(Mark::Saving(n1), p, &dec.ipt@[4], tiles);
    let (p, i5) = dec.ipt@[4].plan(p, tiles);
    lemma_dump_saves(n1, p, dump, "ipt_blk5"@, i5);
    let p = dump_plan(p, dump, "ipt_blk5"@, i5);
    let n2 = n1 + wanted(dump, "ipt_blk5"@);
    crate::cuda_ops::lemma_cat_keeps(Mark::Saving(n2), p, seq![x4, i5]);
    let (p, cat) = cat_plan(p, seq![x4, i5]);
    crate::cuda_net::lemma_dec_block_keeps(Mark::Saving(n2), p, &dec.blocks@[3], cat);
    let (p, p4) = dec.blocks@[3].plan(p, cat);
    lemma_dump_saves(n2, p, dump, "decoder_block4"@, p4);
    assert(n2 + wanted(dump, "decoder_block4"@) =~= names + (wanted(dump, "squeeze_module"@)
        + refine_list(dump, 3)));
}

proof fn lemma_descend_saves(
    names: Seq<Seq<char>>,
    p: Plan,
    dec: &CudaDecoder,
    k: int,
    lat: Dw,
    lat_b: Dw,
    e: DTensor,
    x: DTensor,
    pk: DTensor,
    dump: Wish,
)
    requires
        keeps(Mark::Saving(names), p),
    ensures
        keeps(
            Mark::Saving(names + refine_list(dump, k - 1)),
            dec.descend_plan(p, k, lat, lat_b, e, x, pk, dump).0,
        ),
{
    reveal(CudaDecoder::descend_plan);
    let base = Mark::Saving(names);
    let (w, b) = dec.ms@[k - 1];
    crate::cuda_ops::lemma_conv_keeps(base, p, pk, w@, b.buf, 1, false);
    let (p, pred) = conv_plan(p, pk, w@, b.buf, 1, false);
    crate::cuda_net::lemma_plane_keeps(base, p, &dec.gdt@[k - 1], pk);
    let (p, attn) = dec.gdt@[k - 1].plan(p, pk);
    crate::cuda_ops::lemma_mul_broadcast_channel_keeps(base, p, pk, attn);
    let p = mul_broadcast_channel_plan(p, pk, attn);
    crate::cuda_ops::lemma_resize_bilinear_keeps(base, p, pk, e.h, e.w, true);
    let (p, up) = resize_bilinear_plan(p, pk, e.h, e.w, true);
    crate::cuda_ops::lemma_conv_keeps(base, p, e, lat, lat_b.buf, 1, false);
    let (p, side) = conv_plan(p, e, lat, lat_b.buf, 1, false);
    crate::cuda_ops::lemma_add_inplace_keeps(base, p, up, side);
    let (p, _) = add_inplace_plan(p, up, side);
    crate::cuda_forward::lemma_ipt_input_keeps(base, p, x, e.h, e.w);
    let (p, tiles) = ipt_input_plan(p, x, e.h, e.w);
    crate::cuda_net::lemma_simple_keeps(base, p, &dec.ipt@[k], tiles);
    let (p, i) = dec.ipt@[k].plan(p, tiles);
    let name = "ipt_blk"@ + number_text(k + 1);
    lemma_dump_saves(names, p, dump, name, i);
    let p = dump_plan(p, dump, name, i);
    let n1 = names + wanted(dump, name);
    crate::cuda_ops::lemma_cat_keeps(Mark::Saving(n1), p, seq![up, i]);
    let (p, cat) = cat_plan(p, seq![up, i]);
    crate::cuda_net::lemma_dec_block_keeps(Mark::Saving(n1), p, &dec.blocks@[k - 1], cat);
    let (p, out) = dec.blocks@[k - 1].plan(p, cat);
    let last = "decoder_block"@ + number_text(k);
    lemma_dump_saves(n1, p, dump, last, out);
    assert(n1 + wanted(dump, last) =~= names + refine_list(dump, k - 1));
}

proof fn lemma_end_saves(
    names: Seq<Seq<char>>,
    p: Plan,
    dec: &CudaDecoder,
    x: DTensor,
    p1: DTensor,
    preds: (DTensor, DTensor, DTensor),
    dump: Wish,
)
    requires
        keeps(Mark::Saving(names), p),
    ensures
        keeps(Mark::Saving(names + end_list(dump)), dec.end_plan(p, x, p1, preds, dump).0),
{
    let first = p;
    let base = Mark::Saving(names);
    crate::cuda_ops::lemma_resize_bilinear_keeps(base, p, p1, x.h, x.w, true);
    let (p, up) = resize_bilinear_plan(p, p1, x.h, x.w, true);
    crate::cuda_forward::lemma_ipt_input_keeps(base, p, x, x.h, x.w);
    let (p, tiles) = ipt_input_plan(p, x, x.h, x.w);
    crate::cuda_net::lemma_simple_keeps(base, p, &dec.ipt@[0], tiles);
    let (p, i1) = dec.ipt@[0].plan(p, tiles);
    lemma_dump_saves(names, p, dump, "ipt_blk1"@, i1);
    let p = dump_plan(p, dump, "ipt_blk1"@, i1);
    let n1 = names + wanted(dump, "ipt_blk1"@);
    crate::cuda_ops::lemma_cat_keeps(Mark::Saving(n1), p, seq![up, i1]);
    let (p, last) = cat_plan(p, seq![up, i1]);
    crate::cuda_ops::lemma_conv_keeps(
        Mark::Saving(n1),
        p,
        last,
        dec.conv_out1_w@,
        dec.conv_out1_b.buf,
        1,
        false,
    );
    let (p, out) = conv_plan(p, last, dec.conv_out1_w@, dec.conv_out1_b.buf, 1, false);
    lemma_dump_saves(n1, p, dump, "conv_out1"@, out);
    let p = dump_plan(p, dump, "conv_out1"@, out);
    let n2 = n1 + wanted(dump, "conv_out1"@);
    lemma_dump_saves(n2, p, dump, "pred0"@, preds.0);
    let p = dump_plan(p, dump, "pred0"@, preds.0);
    let n3 = n2 + wanted(dump, "pred0"@);
    lemma_dump_saves(n3, p, dump, "pred1"@, preds.1);
    let p = dump_plan(p, dump, "pred1"@, preds.1);
    let n4 = n3 + wanted(dump, "pred1"@);
    lemma_dump_saves(n4, p, dump, "pred2"@, preds.2);
    let q = dump_plan(p, dump, "pred2"@, preds.2);
    let n5 = n4 + wanted(dump, "pred2"@);
    lemma_dump_saves(n5, q, dump, "pred3"@, out);
    lemma_six(
        names,
        wanted(dump, "ipt_blk1"@),
        wanted(dump, "conv_out1"@),
        wanted(dump, "pred0"@),
        wanted(dump, "pred1"@),
        wanted(dump, "pred2"@),
        wanted(dump, "pred3"@),
    );
    assert(dump_plan(q, dump, "pred3"@, out) == dec.end_plan(first, x, p1, preds, dump).0) by {
        reveal(CudaDecoder::end_plan);
    }
}

proof fn lemma_decoder_saves(
    names: Seq<Seq<char>>,
    p: Plan,
    w: &CudaWeights,
    enc: Seq<DTensor>,
    x: DTensor,
    dump: Wish,
)
    requires
        keeps(Mark::Saving(names), p),
    ensures
        keeps(
            Mark::Saving(names + (way_list(dump) + end_list(dump))),
            decoder_plan(p, w, enc, x, dump).0,
        ),
{
    reveal(decoder_plan);
    let d = &w.dec;
    if !d.complete() {
        crate::cuda::lemma_broken_keeps(
            Mark::Saving(names + (way_list(dump) + end_list(dump))),
        );
    } else {
        crate::cuda_net::lemma_dec_block_keeps(Mark::Saving(names), p, &w.squeeze, enc[3]);
        let (p, x4) = w.squeeze.plan(p, enc[3]);
        lemma_start_saves(names, p, d, x4, x, dump);
        let (p, p4) = d.start_plan(p, x4, x, dump);
        let n1 = names + (wanted(dump, "squeeze_module"@) + refine_list(dump, 3));
        lemma_descend_saves(n1, p, d, 3, d.lat4@, d.lat4b@, enc[2], x, p4, dump);
        let (p, p3, m4) = d.descend_plan(p, 3, d.lat4@, d.lat4b@, enc[2], x, p4, dump);
        let n2 = n1 + refine_list(dump, 2);
        lemma_descend_saves(n2, p, d, 2, d.lat3@, d.lat3b@, enc[1], x, p3, dump);
        let (p, p2, m3) = d.descend_plan(p, 2, d.lat3@, d.lat3b@, enc[1], x, p3, dump);
        let n3 = n2 + refine_list(dump, 1);
        lemma_descend_saves(n3, p, d, 1, d.lat2@, d.lat2b@, enc[0], x, p2, dump);
        let (p, p1, m2) = d.descend_plan(p, 1, d.lat2@, d.lat2b@, enc[0], x, p2, dump);
        let n4 = n3 + refine_list(dump, 0);
        lemma_end_saves(n4, p, d, x, p1, (m4, m3, m2), dump);
        assert(n4 + end_list(dump) =~= names + (way_list(dump) + end_list(dump)));
    }
}

/// A pass on the device writes these names, behind what the plan wrote before.
pub proof fn lemma_names_saved(
    p: Plan,
    w: &CudaWeights,
    s: Store,
    before: Plan,
    c: usize,
    h: usize,
    ww: usize,
    dump: Wish,
)
    requires
        w.at(s, before),
        forward_plan(p, w, c, h, ww, dump).0 is Going,
    ensures
        saved(forward_plan(p, w, c, h, ww, dump).0) == saved(p) + pass_list(dump),
{
    reveal(forward_plan);
    assert(stages_at(w.stages@, s)) by {
        reveal(CudaWeights::at);
    }
    let names = saved(p);
    assert(keeps(Mark::Saving(names), p)) by {
        reveal(keeps);
    }
    let ok = h * ww <= usize::MAX && c * (h * ww) <= usize::MAX;
    crate::cuda::lemma_provided_keeps(Mark::Saving(names), p, ok);
    let q = provided(p, ok);
    crate::cuda::lemma_upload_keeps(Mark::Saving(names), q, Source::Input, c * (h * ww));
    let (q, buf) = upload_plan(q, Source::Input, c * (h * ww));
    let x = DTensor { c, h, w: ww, buf };
    lemma_dump_saves(names, q, dump, "input"@, x);
    let q = dump_plan(q, dump, "input"@, x);
    let n1 = names + wanted(dump, "input"@);
    lemma_encoder_saves(n1, q, w, s, x, dump);
    let (q, enc) = forward_enc_plan(q, w, x, dump);
    let n2 = n1 + encoder_list(dump);
    lemma_decoder_saves(n2, q, w, enc, x, dump);
    let n3 = n2 + (way_list(dump) + end_list(dump));
    assert(n3 =~= names + pass_list(dump));
    reveal(keeps);
}

// ---- both -----------------------------------------------------------------------------

/// Of one checkpoint, a pass on the device writes exactly what a pass on the processor writes,
/// under the same names and in the same order, whatever is asked for: the directory and the
/// steps mean the same on both.
pub proof fn lemma_same_dumps<T: Scalar>(
    net: Rmbg<T>,
    m: Arith<T>,
    x: Img<T>,
    p: Plan,
    w: &CudaWeights,
    s: Store,
    before: Plan,
    c: usize,
    h: usize,
    ww: usize,
    dump: Wish,
)
    requires
        net.loaded(s.w),
        w.at(s, before),
        forward_plan(p, w, c, h, ww, dump).0 is Going,
    ensures
        saved(forward_plan(p, w, c, h, ww, dump).0) == saved(p) + names_of(
            net.written(m, x, dump),
        ),
{
    lemma_names_written(net, s.w, m, x, dump);
    lemma_names_saved(p, w, s, before, c, h, ww, dump);
}

proof fn lemma_no_blocks(dump: Wish, tag: Seq<char>, stage: int, n: int)
    requires
        dump.dir is None,
    ensures
        block_list(dump, tag, stage, n) == Seq::<Seq<char>>::empty(),
    decreases n,
{
    if n > 0 {
        lemma_no_blocks(dump, tag, stage, n - 1);
    }
}

proof fn lemma_no_stages(dump: Wish, tag: Seq<char>, n: int)
    requires
        dump.dir is None,
    ensures
        stages_list(dump, tag, n) == Seq::<Seq<char>>::empty(),
    decreases n,
{
    if n > 0 {
        lemma_no_stages(dump, tag, n - 1);
        lemma_no_blocks(dump, tag, n - 1, DEPTHS@[n - 1] as int);
    }
}

proof fn lemma_no_laterals(dump: Wish, n: int)
    requires
        dump.dir is None,
    ensures
        laterals_list(dump, n) == Seq::<Seq<char>>::empty(),
    decreases n,
{
    if n > 0 {
        lemma_no_laterals(dump, n - 1);
    }
}

/// Without a directory a pass on the device writes nothing, whatever is named.
pub proof fn lemma_nothing_saved(
    p: Plan,
    w: &CudaWeights,
    s: Store,
    before: Plan,
    c: usize,
    h: usize,
    ww: usize,
    dump: Wish,
)
    requires
        w.at(s, before),
        forward_plan(p, w, c, h, ww, dump).0 is Going,
        dump.dir is None,
    ensures
        saved(forward_plan(p, w, c, h, ww, dump).0) == saved(p),
{
    lemma_names_saved(p, w, s, before, c, h, ww, dump);
    lemma_no_stages(dump, "full"@, 4);
    lemma_no_stages(dump, "half"@, 4);
    lemma_no_laterals(dump, 4);
    assert(encoder_list(dump).len() == 0);
    assert(way_list(dump).len() == 0);
    assert(end_list(dump).len() == 0);
    assert(saved(p) + pass_list(dump) =~= saved(p));
}

} // verus!
