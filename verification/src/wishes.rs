//! What is written of a pass through the network, and what was asked for.

use crate::dump::{Entry, Wish};
use crate::model::Rmbg;
use crate::scalar::{Arith, Scalar};
use crate::swin::{Ask, SwinStage};
use crate::tensor::Img;
use vstd::prelude::*;

verus! {

/// Everything goes to the directory that was named, and was asked for: as a tensor, or as a
/// part of the backbone.
#[verifier::opaque]
pub open spec fn asked<T>(dump: Wish, s: Seq<Entry<T>>) -> bool {
    forall|i: int|
        0 <= i < s.len() ==> (#[trigger] s[i]).dir == dump.place() && (dump.asks_for(s[i].name)
            || dump.parts().contains(s[i].name))
}

broadcast proof fn lemma_asked_both<T>(dump: Wish, a: Seq<Entry<T>>, b: Seq<Entry<T>>)
    requires
        asked(dump, a),
        asked(dump, b),
    ensures
        #[trigger] asked(dump, a + b),
{
    reveal(asked);
    let c = a + b;
    assert forall|i: int| 0 <= i < c.len() implies (#[trigger] c[i]).dir == dump.place() && (
    dump.asks_for(c[i].name) || dump.parts().contains(c[i].name)) by {
        if i < a.len() {
            assert(c[i] == a[i]);
        } else {
            assert(c[i] == b[i - a.len()]);
        }
    }
}

broadcast proof fn lemma_asked_one<T>(dump: Wish, name: Seq<char>, img: Img<T>)
    ensures
        #[trigger] asked(dump, dump.written(name, img)),
{
    reveal(asked);
}

broadcast proof fn lemma_asked_none<T>(dump: Wish)
    ensures
        #[trigger] asked(dump, Seq::<Entry<T>>::empty()),
{
    reveal(asked);
}

broadcast group group_asked {
    lemma_asked_both,
    lemma_asked_one,
    lemma_asked_none,
}

proof fn lemma_part_asked<T>(dump: Wish, ask: Ask, name: Seq<char>, tokens: Seq<T>, c: int)
    requires
        ask.dir == dump.place(),
        ask.names == dump.parts(),
    ensures
        asked(dump, crate::swin::part_written(ask, name, tokens, c)),
{
    reveal(asked);
}

proof fn lemma_blocks_asked<T: Scalar>(
    st: SwinStage<T>,
    m: Arith<T>,
    x: Seq<T>,
    h: usize,
    w: usize,
    stage: int,
    dump: Wish,
    ask: Ask,
    n: int,
)
    requires
        ask.dir == dump.place(),
        ask.names == dump.parts(),
    ensures
        asked(dump, st.blocks_written(m, x, h, w, stage, Some(ask), n)),
    decreases n,
{
    broadcast use group_asked;

    if n > 0 {
        lemma_blocks_asked(st, m, x, h, w, stage, dump, ask, n - 1);
        lemma_part_asked(
            dump,
            ask,
            crate::swin::block_name(ask.tag, stage, n - 1),
            st.blocks_out(m, x, h, w, n),
            ask.features,
        );
    }
}

proof fn lemma_stage_asked<T: Scalar>(
    st: SwinStage<T>,
    m: Arith<T>,
    x: Seq<T>,
    h: usize,
    w: usize,
    b: int,
    stage: int,
    dump: Wish,
    ask: Ask,
)
    requires
        ask.dir == dump.place(),
        ask.names == dump.parts(),
    ensures
        asked(dump, st.written(m, x, h, w, b, stage, Some(ask))),
{
    broadcast use group_asked;

    lemma_blocks_asked(st, m, x, h, w, stage, dump, ask, st.blocks@.len() as int);
    lemma_part_asked(
        dump,
        ask,
        crate::swin::downsample_name(ask.tag, stage),
        st.down(m, x, h, w, b),
        2 * (x.len() as int / (b * (h * w))),
    );
}

proof fn lemma_stages_asked<T: Scalar>(
    net: Rmbg<T>,
    m: Arith<T>,
    x: Img<T>,
    tag: Seq<char>,
    dump: Wish,
    n: int,
)
    ensures
        asked(dump, net.stages_written(m, x, tag, dump, n)),
    decreases n,
{
    broadcast use group_asked;

    if n > 0 {
        lemma_stages_asked(net, m, x, tag, dump, n - 1);
        let g = net.entering(m, x, n - 1);
        lemma_stage_asked(
            net.stages@[n - 1],
            m,
            g.tokens,
            g.h,
            g.w,
            1,
            n - 1,
            dump,
            crate::backbone::stage_ask(dump, tag, n - 1),
        );
    }
}

proof fn lemma_backbone_asked<T: Scalar>(
    net: Rmbg<T>,
    m: Arith<T>,
    x: Img<T>,
    tag: Seq<char>,
    dump: Wish,
)
    ensures
        asked(dump, net.backbone_written(m, x, tag, dump)),
{
    broadcast use group_asked;

    reveal(Rmbg::backbone_written);
    lemma_stages_asked(net, m, x, tag, dump, 4);
}

proof fn lemma_laterals_asked<T: Scalar>(
    net: Rmbg<T>,
    m: Arith<T>,
    x: Img<T>,
    dump: Wish,
    n: int,
)
    ensures
        asked(dump, net.laterals_written(m, x, dump, n)),
    decreases n,
{
    broadcast use group_asked;

    if n > 0 {
        lemma_laterals_asked(net, m, x, dump, n - 1);
    }
}

proof fn lemma_encoder_asked<T: Scalar>(net: Rmbg<T>, m: Arith<T>, x: Img<T>, dump: Wish)
    ensures
        asked(dump, net.encoder_written(m, x, dump)),
{
    broadcast use group_asked;

    reveal(Rmbg::encoder_written);
    lemma_backbone_asked(net, m, x, "full"@, dump);
    lemma_backbone_asked(net, m, crate::encoder::halved(m, x), "half"@, dump);
    lemma_laterals_asked(net, m, x, dump, 4);
}

/// Of a pass through the network, only what was asked for is written, and only to the
/// directory that was named.
pub proof fn lemma_only_what_is_asked<T: Scalar>(
    net: Rmbg<T>,
    m: Arith<T>,
    x: Img<T>,
    dump: Wish,
    i: int,
)
    requires
        0 <= i < net.written(m, x, dump).len(),
    ensures
        dump.dir == Some(net.written(m, x, dump)[i].dir),
        dump.asks_for(net.written(m, x, dump)[i].name) || dump.parts().contains(
            net.written(m, x, dump)[i].name,
        ),
{
    let all = net.written(m, x, dump);
    assert(asked(dump, all)) by {
        broadcast use group_asked;

        reveal(Rmbg::way_written);
        reveal(Rmbg::end_written);
        reveal(Rmbg::block_written);
        lemma_encoder_asked(net, m, x, dump);
    }
    reveal(asked);
}

/// Without a directory nothing is written, whatever is named.
pub proof fn lemma_nothing_written<T: Scalar>(
    net: Rmbg<T>,
    m: Arith<T>,
    x: Img<T>,
    dump: Wish,
)
    requires
        dump.dir is None,
    ensures
        net.written(m, x, dump) == Seq::<Entry<T>>::empty(),
{
    let all = net.written(m, x, dump);
    if all.len() > 0 {
        lemma_only_what_is_asked(net, m, x, dump, 0);
    }
    assert(all =~= Seq::<Entry<T>>::empty());
}

} // verus!
