//! Planning the operations: each gives the launches that compute it.

use crate::cuda::{
    dt_plan, grid_for, grid_of, group_keeps, keeps, launch_over_plan, launch_plan, made, no_tensor,
    provided, row_threads, threads_from, Arg, CudaModel, DTensor, Dw, Kernel, Mark, Plan, Shape, DW,
};
use crate::layout::steps;
use vstd::prelude::*;

verus! {

broadcast use group_keeps;

/// The buffer of an optional weight.
pub open spec fn bias_buf(b: Option<&DW>) -> Option<usize> {
    match b {
        Some(d) => d.buf,
        None => None,
    }
}

/// The buffer of an optional weight.
pub fn bias_ptr(b: Option<&DW>) -> (r: Option<usize>)
    ensures
        r == bias_buf(b),
{
    match b {
        Some(d) => d.buf,
        None => None,
    }
}

/// The number of elements can be counted.
pub open spec fn countable(t: DTensor) -> bool {
    t.area() <= usize::MAX && t.size() <= usize::MAX
}

impl CudaModel {
    /// The number of elements of a plane, which is to be countable.
    pub fn area(&mut self, t: &DTensor) -> (r: usize)
        ensures
            final(self)@ == provided(old(self)@, t.area() <= usize::MAX),
            t.area() <= usize::MAX ==> r == t.area(),
            final(self).weights == old(self).weights,
    {
        self.times(t.h, t.w)
    }

    /// The number of elements, which is to be countable.
    pub fn elements(&mut self, t: &DTensor) -> (r: usize)
        ensures
            final(self)@ == provided(old(self)@, countable(*t)),
            countable(*t) ==> r == t.size(),
            final(self).weights == old(self).weights,
    {
        let hw = self.times(t.h, t.w);
        proof {
            if t.area() <= usize::MAX {
                assert(t.c * hw == t.c * (t.h * t.w));
            }
        }
        self.times(t.c, hw)
    }
}

/// An element-wise kernel with a wide count.
#[verifier::opaque]
pub open spec fn unary_plan(p: Plan, kernel: Kernel, src: DTensor) -> (Plan, DTensor) {
    let (q, dst) = dt_plan(p, src.c as int, src.h as int, src.w as int);
    let r = launch_over_plan(
        q,
        kernel,
        src.size(),
        seq![Arg::Ptr(src.buf), Arg::Ptr(dst.buf), Arg::Long(src.size() as usize)],
    );
    (r, made(r, dst))
}

impl CudaModel {
    /// An element-wise kernel with a wide count.
    pub fn unary(&mut self, kernel: Kernel, src: &DTensor) -> (r: DTensor)
        ensures
            (final(self)@, r) == unary_plan(old(self)@, kernel, *src),
            final(self).weights == old(self).weights,
    {
        proof {
            reveal(unary_plan);
        }
        let dst = self.dt(src.c, src.h, src.w);
        let n = self.elements(src);
        self.launch_over(
            kernel,
            n,
            vec![Arg::Ptr(src.buf), Arg::Ptr(dst.buf), Arg::Long(n)],
        );
        self.done(dst)
    }
}

impl CudaModel {
    /// The same elements.
    pub fn copy(&mut self, src: &DTensor) -> (r: DTensor)
        ensures
            (final(self)@, r) == unary_plan(old(self)@, Kernel::Copy, *src),
            final(self).weights == old(self).weights,
    {
        self.unary(Kernel::Copy, src)
    }
}

impl CudaModel {
    /// Elements below zero become zero.
    pub fn relu(&mut self, src: &DTensor) -> (r: DTensor)
        ensures
            (final(self)@, r) == unary_plan(old(self)@, Kernel::Relu, *src),
            final(self).weights == old(self).weights,
    {
        self.unary(Kernel::Relu, src)
    }
}

impl CudaModel {
    /// The logistic function of each element.
    pub fn sigmoid(&mut self, src: &DTensor) -> (r: DTensor)
        ensures
            (final(self)@, r) == unary_plan(old(self)@, Kernel::Sigmoid, *src),
            final(self).weights == old(self).weights,
    {
        self.unary(Kernel::Sigmoid, src)
    }
}

impl CudaModel {
    /// The Gaussian error unit of each element.
    pub fn gelu(&mut self, src: &DTensor) -> (r: DTensor)
        ensures
            (final(self)@, r) == unary_plan(old(self)@, Kernel::GeluErf, *src),
            final(self).weights == old(self).weights,
    {
        self.unary(Kernel::GeluErf, src)
    }
}

/// Twice the logistic function of each element.
#[verifier::opaque]
pub open spec fn double_sigmoid_plan(p: Plan, x: DTensor) -> (Plan, DTensor) {
    let (q, dst) = dt_plan(p, x.c as int, x.h as int, x.w as int);
    let r = launch_over_plan(
        q,
        Kernel::DoubleSigmoid,
        x.size(),
        seq![Arg::Ptr(x.buf), Arg::Ptr(dst.buf), Arg::Int(x.size() as usize)],
    );
    (r, made(r, dst))
}

impl CudaModel {
    /// Twice the logistic function of each element.
    pub fn double_sigmoid(&mut self, x: &DTensor) -> (r: DTensor)
        ensures
            (final(self)@, r) == double_sigmoid_plan(old(self)@, *x),
            final(self).weights == old(self).weights,
    {
        proof {
            reveal(double_sigmoid_plan);
        }
        let dst = self.dt(x.c, x.h, x.w);
        let n = self.elements(x);
        self.launch_over(
            Kernel::DoubleSigmoid,
            n,
            vec![Arg::Ptr(x.buf), Arg::Ptr(dst.buf), Arg::Int(n)],
        );
        self.done(dst)
    }
}

/// Each channel times its scale, plus its shift.
#[verifier::opaque]
pub open spec fn affine_plan(p: Plan, src: DTensor, scale: Dw, shift: Dw) -> (Plan, DTensor) {
    let (q, dst) = dt_plan(p, src.c as int, src.h as int, src.w as int);
    let r = launch_over_plan(
        q,
        Kernel::ChannelAffine,
        src.size(),
        seq![
            Arg::Ptr(src.buf),
            Arg::Ptr(dst.buf),
            Arg::Ptr(scale.buf),
            Arg::Ptr(shift.buf),
            Arg::Int(src.c),
            Arg::Int(src.area() as usize),
        ],
    );
    (r, made(r, dst))
}

impl CudaModel {
    /// Each channel times its scale, plus its shift.
    pub fn affine(&mut self, src: &DTensor, scale: &DW, shift: &DW) -> (r: DTensor)
        ensures
            (final(self)@, r) == affine_plan(old(self)@, *src, scale@, shift@),
            final(self).weights == old(self).weights,
    {
        proof {
            reveal(affine_plan);
        }
        let dst = self.dt(src.c, src.h, src.w);
        let hw = self.area(src);
        let n = self.elements(src);
        self.launch_over(
            Kernel::ChannelAffine,
            n,
            vec![
                Arg::Ptr(src.buf),
                Arg::Ptr(dst.buf),
                Arg::Ptr(scale.buf),
                Arg::Ptr(shift.buf),
                Arg::Int(src.c),
                Arg::Int(hw),
            ],
        );
        self.done(dst)
    }
}

/// The kernel that computes a convolution.
pub open spec fn conv_kernel(k: int, stride4: bool) -> Kernel {
    if stride4 {
        Kernel::Conv4x4
    } else if k == 1 {
        Kernel::Conv1x1
    } else if k == 3 {
        Kernel::Conv3x3
    } else {
        Kernel::ConvKxk
    }
}

/// A square convolution that keeps the size, or one that goes by steps of four.
#[verifier::opaque]
pub open spec fn conv_plan(
    p: Plan,
    src: DTensor,
    w: Dw,
    bias: Option<usize>,
    k: usize,
    stride4: bool,
) -> (Plan, DTensor) {
    let q = provided(p, w.shape.len() >= 2);
    let oc = w.shape[0];
    let oh = if stride4 { src.h as int / 4 } else { src.h as int };
    let ow = if stride4 { src.w as int / 4 } else { src.w as int };
    let (s, dst) = dt_plan(q, oc as int, oh, ow);
    let r = launch_over_plan(
        s,
        conv_kernel(k as int, stride4),
        oc * (oh * ow),
        seq![
            Arg::Ptr(src.buf),
            Arg::Ptr(w.buf),
            Arg::Ptr(bias),
            Arg::Ptr(dst.buf),
            Arg::Int(w.shape[1]),
            Arg::Int(oc),
            Arg::Int(src.h),
            Arg::Int(src.w),
            Arg::Int(k),
        ],
    );
    (r, made(r, dst))
}

impl CudaModel {
    /// A square convolution that keeps the size, or one that goes by steps of four.
    pub fn conv(
        &mut self,
        src: &DTensor,
        w: &DW,
        bias: Option<&DW>,
        k: usize,
        stride4: bool,
    ) -> (r: DTensor)
        ensures
            (final(self)@, r) == conv_plan(old(self)@, *src, w@, bias_buf(bias), k, stride4),
            final(self).weights == old(self).weights,
    {
        proof {
            reveal(conv_plan);
        }
        if w.shape.len() < 2 {
            self.must(false);
            return self.done(*src);
        }
        let oc = w.oc();
        let ic = w.ic();
        let oh = if stride4 { src.h / 4 } else { src.h };
        let ow = if stride4 { src.w / 4 } else { src.w };
        let dst = self.dt(oc, oh, ow);
        let kernel = if stride4 {
            Kernel::Conv4x4
        } else if k == 1 {
            Kernel::Conv1x1
        } else if k == 3 {
            Kernel::Conv3x3
        } else {
            Kernel::ConvKxk
        };
        let total = self.elements(&dst);
        self.launch_over(
            kernel,
            total,
            vec![
                Arg::Ptr(src.buf),
                Arg::Ptr(w.buf),
                Arg::Ptr(bias_ptr(bias)),
                Arg::Ptr(dst.buf),
                Arg::Int(ic),
                Arg::Int(oc),
                Arg::Int(src.h),
                Arg::Int(src.w),
                Arg::Int(k),
            ],
        );
        self.done(dst)
    }
}

/// A linear map of the channels of one pixel.
#[verifier::opaque]
pub open spec fn linear_1x1_plan(
    p: Plan,
    src: DTensor,
    w: Dw,
    bias: Option<usize>,
) -> (Plan, DTensor) {
    let q = provided(p, w.shape.len() >= 2);
    let oc = w.shape[0];
    let (s, dst) = dt_plan(q, oc as int, 1, 1);
    let r = launch_over_plan(
        s,
        Kernel::Linear1x1,
        oc as int,
        seq![
            Arg::Ptr(src.buf),
            Arg::Ptr(w.buf),
            Arg::Ptr(bias),
            Arg::Ptr(dst.buf),
            Arg::Int(w.shape[1]),
            Arg::Int(oc),
        ],
    );
    (r, made(r, dst))
}

impl CudaModel {
    /// A linear map of the channels of one pixel.
    pub fn linear_1x1(&mut self, src: &DTensor, w: &DW, bias: Option<&DW>) -> (r: DTensor)
        ensures
            (final(self)@, r) == linear_1x1_plan(old(self)@, *src, w@, bias_buf(bias)),
            final(self).weights == old(self).weights,
    {
        proof {
            reveal(linear_1x1_plan);
        }
        if w.shape.len() < 2 {
            self.must(false);
            return self.done(*src);
        }
        let oc = w.oc();
        let ic = w.ic();
        let dst = self.dt(oc, 1, 1);
        self.launch_over(
            Kernel::Linear1x1,
            oc,
            vec![
                Arg::Ptr(src.buf),
                Arg::Ptr(w.buf),
                Arg::Ptr(bias_ptr(bias)),
                Arg::Ptr(dst.buf),
                Arg::Int(ic),
                Arg::Int(oc),
            ],
        );
        self.done(dst)
    }
}

/// A linear map of each of `rows` rows, by tiles of sixteen by sixteen.
#[verifier::opaque]
pub open spec fn linear_plan(
    p: Plan,
    x: DTensor,
    w: Dw,
    b: Option<usize>,
    rows: usize,
) -> (Plan, DTensor) {
    let q = provided(
        p,
        w.shape.len() >= 2 && w.shape[0] + 15 <= usize::MAX && rows + 15 <= usize::MAX,
    );
    let oc = w.shape[0];
    let (s, dst) = dt_plan(q, oc as int, 1, rows as int);
    let r = launch_plan(
        s,
        Kernel::Linear,
        Shape {
            grid: (steps(oc as int, 16) as u32, steps(rows as int, 16) as u32, 1),
            block: (16, 16, 1),
            shared: 0,
        },
        seq![
            Arg::Ptr(x.buf),
            Arg::Ptr(w.buf),
            Arg::Ptr(b),
            Arg::Ptr(dst.buf),
            Arg::Int(rows),
            Arg::Int(w.shape[1]),
            Arg::Int(oc),
        ],
    );
    (r, made(r, dst))
}

impl CudaModel {
    /// A linear map of each of `rows` rows, by tiles of sixteen by sixteen.
    pub fn linear(&mut self, x: &DTensor, w: &DW, b: Option<&DW>, rows: usize) -> (r: DTensor)
        ensures
            (final(self)@, r) == linear_plan(old(self)@, *x, w@, bias_buf(b), rows),
            final(self).weights == old(self).weights,
    {
        proof {
            reveal(linear_plan);
        }
        if w.shape.len() < 2 || w.shape[0] > usize::MAX - 15 || rows > usize::MAX - 15 {
            self.must(false);
            return self.done(*x);
        }
        let oc = w.oc();
        let ic = w.ic();
        let dst = self.dt(oc, 1, rows);
        let gx = ((oc + 15) / 16) as u32;
        let gy = ((rows + 15) / 16) as u32;
        self.launch(
            Kernel::Linear,
            Shape { grid: (gx, gy, 1), block: (16, 16, 1), shared: 0 },
            vec![
                Arg::Ptr(x.buf),
                Arg::Ptr(w.buf),
                Arg::Ptr(bias_ptr(b)),
                Arg::Ptr(dst.buf),
                Arg::Int(rows),
                Arg::Int(ic),
                Arg::Int(oc),
            ],
        );
        self.done(dst)
    }
}

/// The sum of tokens and the corner of a padded grid, into `out`.
#[verifier::opaque]
pub open spec fn add_crop_tokens_plan(
    p: Plan,
    x: DTensor,
    buf: DTensor,
    out: DTensor,
    h: usize,
    w: usize,
    hp: usize,
    wp: usize,
) -> Plan {
    launch_over_plan(
        provided(p, h * w <= usize::MAX && out.c * (h * w) <= usize::MAX),
        Kernel::AddCropTokens,
        out.c * (h * w),
        seq![
            Arg::Ptr(x.buf),
            Arg::Ptr(buf.buf),
            Arg::Ptr(out.buf),
            Arg::Int(h),
            Arg::Int(w),
            Arg::Int(wp),
            Arg::Int(hp),
            Arg::Int(out.c),
        ],
    )
}

impl CudaModel {
    /// The sum of tokens and the corner of a padded grid, into `out`.
    pub fn add_crop_tokens(
        &mut self,
        x: &DTensor,
        buf: &DTensor,
        out: &DTensor,
        h: usize,
        w: usize,
        hp: usize,
        wp: usize,
    )
        ensures
            final(self)@ == add_crop_tokens_plan(old(self)@, *x, *buf, *out, h, w, hp, wp),
            final(self).weights == old(self).weights,
    {
        proof {
            reveal(add_crop_tokens_plan);
        }
        let n = self.elements(&DTensor { c: out.c, h, w, buf: None });
        self.launch_over(
            Kernel::AddCropTokens,
            n,
            vec![
                Arg::Ptr(x.buf),
                Arg::Ptr(buf.buf),
                Arg::Ptr(out.buf),
                Arg::Int(h),
                Arg::Int(w),
                Arg::Int(wp),
                Arg::Int(hp),
                Arg::Int(out.c),
            ],
        );
    }
}

/// The layer norm of the channels of each row, one block per row.
#[verifier::opaque]
pub open spec fn layernorm_plan(p: Plan, src: DTensor, w: Dw, b: Dw, eps: u32) -> (Plan, DTensor) {
    let (q, dst) = dt_plan(p, src.c as int, src.h as int, src.w as int);
    let r = launch_plan(
        q,
        Kernel::LayerNorm,
        Shape {
            grid: (src.area() as u32, 1, 1),
            block: (threads_from(1, src.c as int) as u32, 1, 1),
            shared: 0,
        },
        seq![
            Arg::Ptr(src.buf),
            Arg::Ptr(w.buf),
            Arg::Ptr(b.buf),
            Arg::Ptr(dst.buf),
            Arg::Int(src.c),
            Arg::Int(src.area() as usize),
            Arg::Bits(eps),
        ],
    );
    (r, made(r, dst))
}

impl CudaModel {
    /// The layer norm of the channels of each row, one block per row.
    pub fn layernorm(&mut self, src: &DTensor, w: &DW, b: &DW, eps: u32) -> (r: DTensor)
        ensures
            (final(self)@, r) == layernorm_plan(old(self)@, *src, w@, b@, eps),
            final(self).weights == old(self).weights,
    {
        proof {
            reveal(layernorm_plan);
        }
        let dst = self.dt(src.c, src.h, src.w);
        let hw = self.area(src);
        let threads = row_threads(src.c);
        self.launch(
            Kernel::LayerNorm,
            Shape { grid: (hw as u32, 1, 1), block: (threads, 1, 1), shared: 0 },
            vec![
                Arg::Ptr(src.buf),
                Arg::Ptr(w.buf),
                Arg::Ptr(b.buf),
                Arg::Ptr(dst.buf),
                Arg::Int(src.c),
                Arg::Int(hw),
                Arg::Bits(eps),
            ],
        );
        self.done(dst)
    }
}

/// Bilinear interpolation to another size.
#[verifier::opaque]
pub open spec fn resize_bilinear_plan(
    p: Plan,
    src: DTensor,
    oh: usize,
    ow: usize,
    align: bool,
) -> (Plan, DTensor) {
    let (q, dst) = dt_plan(p, src.c as int, oh as int, ow as int);
    let r = launch_over_plan(
        q,
        Kernel::ResizeBilinear,
        src.c * (oh * ow),
        seq![
            Arg::Ptr(src.buf),
            Arg::Ptr(dst.buf),
            Arg::Int(src.c),
            Arg::Int(src.h),
            Arg::Int(src.w),
            Arg::Int(oh),
            Arg::Int(ow),
            Arg::Int(if align { 1 } else { 0 }),
        ],
    );
    (r, made(r, dst))
}

impl CudaModel {
    /// Bilinear interpolation to another size.
    pub fn resize_bilinear(
        &mut self,
        src: &DTensor,
        oh: usize,
        ow: usize,
        align: bool,
    ) -> (r: DTensor)
        ensures
            (final(self)@, r) == resize_bilinear_plan(old(self)@, *src, oh, ow, align),
            final(self).weights == old(self).weights,
    {
        proof {
            reveal(resize_bilinear_plan);
        }
        let dst = self.dt(src.c, oh, ow);
        let n = self.elements(&dst);
        self.launch_over(
            Kernel::ResizeBilinear,
            n,
            vec![
                Arg::Ptr(src.buf),
                Arg::Ptr(dst.buf),
                Arg::Int(src.c),
                Arg::Int(src.h),
                Arg::Int(src.w),
                Arg::Int(oh),
                Arg::Int(ow),
                Arg::Int(if align { 1 } else { 0 }),
            ],
        );
        self.done(dst)
    }
}

/// The mean of each channel, one block per channel.
#[verifier::opaque]
pub open spec fn global_avg_pool_plan(p: Plan, src: DTensor) -> (Plan, DTensor) {
    let (q, dst) = dt_plan(p, src.c as int, 1, 1);
    let r = launch_plan(
        provided(q, src.area() <= usize::MAX),
        Kernel::ChannelMean,
        Shape { grid: (src.c as u32, 1, 1), block: (256, 1, 1), shared: 0 },
        seq![
            Arg::Ptr(src.buf),
            Arg::Ptr(dst.buf),
            Arg::Int(src.c),
            Arg::Int(src.area() as usize),
        ],
    );
    (r, made(r, dst))
}

impl CudaModel {
    /// The mean of each channel, one block per channel.
    pub fn global_avg_pool(&mut self, src: &DTensor) -> (r: DTensor)
        ensures
            (final(self)@, r) == global_avg_pool_plan(old(self)@, *src),
            final(self).weights == old(self).weights,
    {
        proof {
            reveal(global_avg_pool_plan);
        }
        let dst = self.dt(src.c, 1, 1);
        let hw = self.area(src);
        self.launch(
            Kernel::ChannelMean,
            Shape { grid: (src.c as u32, 1, 1), block: (256, 1, 1), shared: 0 },
            vec![
                Arg::Ptr(src.buf),
                Arg::Ptr(dst.buf),
                Arg::Int(src.c),
                Arg::Int(hw),
            ],
        );
        self.done(dst)
    }
}

/// Channels of the first `n` tensors.
pub open spec fn channels(parts: Seq<DTensor>, n: int) -> int
    decreases n,
{
    if n <= 0 {
        0
    } else {
        channels(parts, n - 1) + parts[n - 1].c
    }
}

proof fn lemma_channels(parts: Seq<DTensor>, n: int)
    requires
        0 <= n <= parts.len(),
    ensures
        0 <= channels(parts, n) <= channels(parts, parts.len() as int),
    decreases parts.len() - n,
{
    if n < parts.len() {
        lemma_channels(parts, n + 1);
    }
    lemma_channels_low(parts, n);
}

proof fn lemma_channels_low(parts: Seq<DTensor>, n: int)
    ensures
        0 <= channels(parts, n),
    decreases n,
{
    if n > 0 {
        lemma_channels_low(parts, n - 1);
    }
}

/// The launches that copy the first `n` tensors one behind the other into `dst`.
pub open spec fn copies_plan(p: Plan, parts: Seq<DTensor>, dst: DTensor, n: int) -> Plan
    decreases n,
{
    if n <= 0 {
        p
    } else {
        let t = parts[n - 1];
        launch_over_plan(
            provided(copies_plan(p, parts, dst, n - 1), countable(t)),
            Kernel::ChannelCopy,
            t.size(),
            seq![
                Arg::Ptr(t.buf),
                Arg::Ptr(dst.buf),
                Arg::Int(t.c),
                Arg::Int(channels(parts, n - 1) as usize),
                Arg::Int(t.area() as usize),
            ],
        )
    }
}

/// The channels of some tensors, at least one, one behind the other.
#[verifier::opaque]
pub open spec fn cat_plan(p: Plan, parts: Seq<DTensor>) -> (Plan, DTensor) {
    let all = channels(parts, parts.len() as int);
    let (q, dst) = dt_plan(
        provided(p, parts.len() > 0 && all <= usize::MAX),
        all,
        parts[0].h as int,
        parts[0].w as int,
    );
    let r = copies_plan(q, parts, dst, parts.len() as int);
    (r, made(r, dst))
}

pub proof fn lemma_copies_broken(parts: Seq<DTensor>, dst: DTensor, n: int)
    ensures
        copies_plan(Plan::Broken, parts, dst, n) == Plan::Broken,
    decreases n,
{
    if n > 0 {
        lemma_copies_broken(parts, dst, n - 1);
    }
}

impl CudaModel {
    /// Channels of some tensors, if they can be counted.
    fn all_channels(parts: &Vec<DTensor>) -> (r: Option<usize>)
        ensures
            match r {
                Some(c) => c == channels(parts@, parts@.len() as int),
                None => channels(parts@, parts@.len() as int) > usize::MAX,
            },
    {
        let mut c: usize = 0;
        let mut i: usize = 0;
        while i < parts.len()
            invariant
                i <= parts@.len(),
                c == channels(parts@, i as int),
            decreases parts@.len() - i,
        {
            match c.checked_add(parts[i].c) {
                Some(n) => {
                    c = n;
                },
                None => {
                    proof {
                        lemma_channels(parts@, i + 1);
                    }
                    return None;
                },
            }
            i += 1;
        }
        Some(c)
    }

    /// The channels of some tensors, at least one, one behind the other.
    pub fn cat(&mut self, parts: &Vec<DTensor>) -> (r: DTensor)
        ensures
            (final(self)@, r) == cat_plan(old(self)@, parts@),
            final(self).weights == old(self).weights,
    {
        proof {
            reveal(cat_plan);
        }
        let all = match Self::all_channels(parts) {
            Some(c) => c,
            None => {
                self.must(false);
                0
            },
        };
        if parts.len() == 0 {
            self.must(false);
            return self.done(DTensor { c: 0, h: 0, w: 0, buf: None });
        }
        let dst = self.dt(all, parts[0].h, parts[0].w);
        let ghost q = self@;
        let mut c0: usize = 0;
        let mut i: usize = 0;
        while i < parts.len()
            invariant
                self.weights == old(self).weights,
                i <= parts@.len(),
                self@ == copies_plan(q, parts@, dst, i as int),
                q is Going ==> channels(parts@, parts@.len() as int) <= usize::MAX,
                q is Going ==> c0 == channels(parts@, i as int),
            decreases parts@.len() - i,
        {
            let t = parts[i];
            proof {
                lemma_channels(parts@, i + 1);
                lemma_copies_broken(parts@, dst, i as int);
            }
            let hw = self.area(&t);
            let n = self.elements(&t);
            self.launch_over(
                Kernel::ChannelCopy,
                n,
                vec![
                    Arg::Ptr(t.buf),
                    Arg::Ptr(dst.buf),
                    Arg::Int(t.c),
                    Arg::Int(c0),
                    Arg::Int(hw),
                ],
            );
            c0 = c0.wrapping_add(t.c);
            i += 1;
        }
        self.done(dst)
    }
}

/// A convolution at moved points, one row of blocks per output channel.
#[verifier::opaque]
pub open spec fn deform_conv_plan(
    p: Plan,
    x: DTensor,
    offset: DTensor,
    mask: DTensor,
    w: Dw,
    k: usize,
    pad: usize,
) -> (Plan, DTensor) {
    let oc = w.shape[0];
    let (q, dst) = dt_plan(provided(p, w.shape.len() >= 1), oc as int, x.h as int, x.w as int);
    let r = launch_plan(
        provided(q, x.area() + 255 <= usize::MAX),
        Kernel::DeformConv,
        Shape { grid: (grid_of(x.area()), oc as u32, 1), block: (256, 1, 1), shared: 0 },
        seq![
            Arg::Ptr(x.buf),
            Arg::Ptr(offset.buf),
            Arg::Ptr(mask.buf),
            Arg::Ptr(w.buf),
            Arg::Ptr(dst.buf),
            Arg::Int(x.c),
            Arg::Int(oc),
            Arg::Int(x.h),
            Arg::Int(x.w),
            Arg::Int(k),
            Arg::Int(pad),
        ],
    );
    (r, made(r, dst))
}

impl CudaModel {
    /// A convolution at moved points, one row of blocks per output channel.
    pub fn deform_conv(
        &mut self,
        x: &DTensor,
        offset: &DTensor,
        mask: &DTensor,
        w: &DW,
        k: usize,
        pad: usize,
    ) -> (r: DTensor)
        ensures
            (final(self)@, r) == deform_conv_plan(old(self)@, *x, *offset, *mask, w@, k, pad),
            final(self).weights == old(self).weights,
    {
        proof {
            reveal(deform_conv_plan);
        }
        if w.shape.len() < 1 {
            self.must(false);
            return self.done(*x);
        }
        let oc = w.oc();
        let dst = self.dt(oc, x.h, x.w);
        let hw = self.area(x);
        if hw > usize::MAX - 255 {
            self.must(false);
            return self.done(dst);
        }
        self.launch(
            Kernel::DeformConv,
            Shape { grid: (grid_for(hw), oc as u32, 1), block: (256, 1, 1), shared: 0 },
            vec![
                Arg::Ptr(x.buf),
                Arg::Ptr(offset.buf),
                Arg::Ptr(mask.buf),
                Arg::Ptr(w.buf),
                Arg::Ptr(dst.buf),
                Arg::Int(x.c),
                Arg::Int(oc),
                Arg::Int(x.h),
                Arg::Int(x.w),
                Arg::Int(k),
                Arg::Int(pad),
            ],
        );
        self.done(dst)
    }
}

/// The tokens of a grid, window by window, into `out`.
#[verifier::opaque]
pub open spec fn window_from_padded_plan(
    p: Plan,
    padded: DTensor,
    out: DTensor,
    hp: usize,
    wp: usize,
    win: usize,
) -> Plan {
    launch_over_plan(
        provided(p, countable(padded)),
        Kernel::WindowGather,
        padded.size(),
        seq![
            Arg::Ptr(padded.buf),
            Arg::Ptr(out.buf),
            Arg::Int(hp),
            Arg::Int(wp),
            Arg::Int(win),
            Arg::Int(padded.c),
        ],
    )
}

impl CudaModel {
    /// The tokens of a grid, window by window, into `out`.
    pub fn window_from_padded(
        &mut self,
        padded: &DTensor,
        out: &DTensor,
        hp: usize,
        wp: usize,
        win: usize,
    )
        ensures
            final(self)@ == window_from_padded_plan(old(self)@, *padded, *out, hp, wp, win),
            final(self).weights == old(self).weights,
    {
        proof {
            reveal(window_from_padded_plan);
        }
        let n = self.elements(padded);
        self.launch_over(
            Kernel::WindowGather,
            n,
            vec![
                Arg::Ptr(padded.buf),
                Arg::Ptr(out.buf),
                Arg::Int(hp),
                Arg::Int(wp),
                Arg::Int(win),
                Arg::Int(padded.c),
            ],
        );
    }
}

/// The tokens of windows, back at their places of a grid, into `padded`.
#[verifier::opaque]
pub open spec fn window_to_padded_plan(
    p: Plan,
    wins: DTensor,
    padded: DTensor,
    hp: usize,
    wp: usize,
    win: usize,
) -> Plan {
    launch_over_plan(
        provided(p, countable(wins)),
        Kernel::WindowScatter,
        wins.size(),
        seq![
            Arg::Ptr(wins.buf),
            Arg::Ptr(padded.buf),
            Arg::Int(hp),
            Arg::Int(wp),
            Arg::Int(win),
            Arg::Int(padded.c),
        ],
    )
}

impl CudaModel {
    /// The tokens of windows, back at their places of a grid, into `padded`.
    pub fn window_to_padded(
        &mut self,
        wins: &DTensor,
        padded: &DTensor,
        hp: usize,
        wp: usize,
        win: usize,
    )
        ensures
            final(self)@ == window_to_padded_plan(old(self)@, *wins, *padded, hp, wp, win),
            final(self).weights == old(self).weights,
    {
        proof {
            reveal(window_to_padded_plan);
        }
        let n = self.elements(wins);
        self.launch_over(
            Kernel::WindowScatter,
            n,
            vec![
                Arg::Ptr(wins.buf),
                Arg::Ptr(padded.buf),
                Arg::Int(hp),
                Arg::Int(wp),
                Arg::Int(win),
                Arg::Int(padded.c),
            ],
        );
    }
}

/// The sum of two tensors, in the place of the first.
#[verifier::opaque]
pub open spec fn add_inplace_plan(p: Plan, dst: DTensor, src: DTensor) -> (Plan, DTensor) {
    let r = launch_over_plan(
        provided(p, countable(dst)),
        Kernel::Add,
        dst.size(),
        seq![
            Arg::Ptr(dst.buf),
            Arg::Ptr(src.buf),
            Arg::Ptr(dst.buf),
            Arg::Int(dst.size() as usize),
        ],
    );
    (r, made(r, dst))
}

impl CudaModel {
    /// The sum of two tensors, in the place of the first.
    pub fn add_inplace(&mut self, dst: &DTensor, src: &DTensor) -> (r: DTensor)
        ensures
            (final(self)@, r) == add_inplace_plan(old(self)@, *dst, *src),
            final(self).weights == old(self).weights,
    {
        proof {
            reveal(add_inplace_plan);
        }
        let n = self.elements(dst);
        self.launch_over(
            Kernel::Add,
            n,
            vec![Arg::Ptr(dst.buf), Arg::Ptr(src.buf), Arg::Ptr(dst.buf), Arg::Int(n)],
        );
        self.done(*dst)
    }
}

/// The four tokens of each two by two square as one, zero beyond the grid.
#[verifier::opaque]
pub open spec fn patch_merge_plan(p: Plan, src: DTensor, h: usize, w: usize) -> (Plan, DTensor) {
    let oh = steps(h as int, 2);
    let ow = steps(w as int, 2);
    let (q, dst) = dt_plan(
        provided(
            p,
            h < usize::MAX && w < usize::MAX && 4 * src.c <= usize::MAX && oh * ow <= usize::MAX,
        ),
        4 * src.c,
        1,
        oh * ow,
    );
    let r = launch_over_plan(
        q,
        Kernel::PatchMerge,
        dst.size(),
        seq![
            Arg::Ptr(src.buf),
            Arg::Ptr(dst.buf),
            Arg::Int(h),
            Arg::Int(w),
            Arg::Int(src.c),
            Arg::Int(oh as usize),
            Arg::Int(ow as usize),
        ],
    );
    (r, made(r, dst))
}

impl CudaModel {
    /// The four tokens of each two by two square as one, zero beyond the grid.
    pub fn patch_merge(&mut self, src: &DTensor, h: usize, w: usize) -> (r: DTensor)
        ensures
            (final(self)@, r) == patch_merge_plan(old(self)@, *src, h, w),
            final(self).weights == old(self).weights,
    {
        proof {
            reveal(patch_merge_plan);
        }
        if h == usize::MAX || w == usize::MAX || src.c > usize::MAX / 4 {
            self.must(false);
            return self.done(*src);
        }
        let oh = (h + 1) / 2;
        let ow = (w + 1) / 2;
        let rows = self.times(oh, ow);
        let dst = self.dt(4 * src.c, 1, rows);
        let n = self.elements(&dst);
        self.launch_over(
            Kernel::PatchMerge,
            n,
            vec![
                Arg::Ptr(src.buf),
                Arg::Ptr(dst.buf),
                Arg::Int(h),
                Arg::Int(w),
                Arg::Int(src.c),
                Arg::Int(oh),
                Arg::Int(ow),
            ],
        );
        self.done(dst)
    }
}

/// The tiles of an image as channels.
#[verifier::opaque]
pub open spec fn tile_patches_plan(p: Plan, src: DTensor, ph: usize, pw: usize) -> (Plan, DTensor) {
    let nrow = steps(src.h as int, ph as int);
    let ncol = steps(src.w as int, pw as int);
    let (q, dst) = dt_plan(
        provided(
            p,
            ph > 0 && pw > 0 && src.h + ph - 1 <= usize::MAX && src.w + pw - 1 <= usize::MAX && nrow
                * ncol <= usize::MAX && src.c * (nrow * ncol) <= usize::MAX,
        ),
        src.c * (nrow * ncol),
        ph as int,
        pw as int,
    );
    let r = launch_over_plan(
        q,
        Kernel::TilePatches,
        dst.size(),
        seq![
            Arg::Ptr(src.buf),
            Arg::Ptr(dst.buf),
            Arg::Int(src.c),
            Arg::Int(src.h),
            Arg::Int(src.w),
            Arg::Int(ph),
            Arg::Int(pw),
        ],
    );
    (r, made(r, dst))
}

impl CudaModel {
    /// The tiles of an image as channels.
    pub fn tile_patches(&mut self, src: &DTensor, ph: usize, pw: usize) -> (r: DTensor)
        ensures
            (final(self)@, r) == tile_patches_plan(old(self)@, *src, ph, pw),
            final(self).weights == old(self).weights,
    {
        proof {
            reveal(tile_patches_plan);
        }
        if ph == 0 || pw == 0 || src.h > usize::MAX - (ph - 1) || src.w > usize::MAX - (pw - 1) {
            self.must(false);
            return self.done(*src);
        }
        let nrow = (src.h + (ph - 1)) / ph;
        let ncol = (src.w + (pw - 1)) / pw;
        let c = self.elements(&DTensor { c: src.c, h: nrow, w: ncol, buf: None });
        let dst = self.dt(c, ph, pw);
        let n = self.elements(&dst);
        self.launch_over(
            Kernel::TilePatches,
            n,
            vec![
                Arg::Ptr(src.buf),
                Arg::Ptr(dst.buf),
                Arg::Int(src.c),
                Arg::Int(src.h),
                Arg::Int(src.w),
                Arg::Int(ph),
                Arg::Int(pw),
            ],
        );
        self.done(dst)
    }
}

/// Each channel times one plane, in place.
#[verifier::opaque]
pub open spec fn mul_broadcast_channel_plan(p: Plan, x: DTensor, a: DTensor) -> Plan {
    launch_over_plan(
        provided(p, countable(x)),
        Kernel::MulBroadcast,
        x.size(),
        seq![
            Arg::Ptr(x.buf),
            Arg::Ptr(a.buf),
            Arg::Int(x.c),
            Arg::Int(x.area() as usize),
        ],
    )
}

impl CudaModel {
    /// Each channel times one plane, in place.
    pub fn mul_broadcast_channel(&mut self, x: &DTensor, a: &DTensor)
        ensures
            final(self)@ == mul_broadcast_channel_plan(old(self)@, *x, *a),
            final(self).weights == old(self).weights,
    {
        proof {
            reveal(mul_broadcast_channel_plan);
        }
        let hw = self.area(x);
        let n = self.elements(x);
        self.launch_over(
            Kernel::MulBroadcast,
            n,
            vec![Arg::Ptr(x.buf), Arg::Ptr(a.buf), Arg::Int(x.c), Arg::Int(hw)],
        );
    }
}

/// Tokens as the planes of an image.
#[verifier::opaque]
pub open spec fn tokens_to_nchw_plan(p: Plan, t: DTensor, h: usize, w: usize) -> (Plan, DTensor) {
    let (q, dst) = dt_plan(p, t.c as int, h as int, w as int);
    let r = launch_over_plan(
        provided(q, countable(t) && h * w <= usize::MAX),
        Kernel::TokensToNchw,
        t.size(),
        seq![Arg::Ptr(t.buf), Arg::Ptr(dst.buf), Arg::Int(t.c), Arg::Int((h * w) as usize)],
    );
    (r, made(r, dst))
}

impl CudaModel {
    /// Tokens as the planes of an image.
    pub fn tokens_to_nchw(&mut self, t: &DTensor, h: usize, w: usize) -> (r: DTensor)
        ensures
            (final(self)@, r) == tokens_to_nchw_plan(old(self)@, *t, h, w),
            final(self).weights == old(self).weights,
    {
        proof {
            reveal(tokens_to_nchw_plan);
        }
        let dst = self.dt(t.c, h, w);
        let hw = self.times(h, w);
        let n = self.elements(t);
        self.launch_over(
            Kernel::TokensToNchw,
            n,
            vec![Arg::Ptr(t.buf), Arg::Ptr(dst.buf), Arg::Int(t.c), Arg::Int(hw)],
        );
        self.done(dst)
    }
}

/// The planes of an image as tokens.
#[verifier::opaque]
pub open spec fn nchw_to_tokens_plan(p: Plan, t: DTensor) -> (Plan, DTensor) {
    let (q, dst) = dt_plan(
        provided(p, t.area() <= usize::MAX),
        t.c as int,
        1,
        t.area(),
    );
    let r = launch_over_plan(
        provided(q, countable(t)),
        Kernel::NchwToTokens,
        t.size(),
        seq![Arg::Ptr(t.buf), Arg::Ptr(dst.buf), Arg::Int(t.c), Arg::Int(t.area() as usize)],
    );
    (r, made(r, dst))
}

impl CudaModel {
    /// The planes of an image as tokens.
    pub fn nchw_to_tokens(&mut self, t: &DTensor) -> (r: DTensor)
        ensures
            (final(self)@, r) == nchw_to_tokens_plan(old(self)@, *t),
            final(self).weights == old(self).weights,
    {
        proof {
            reveal(nchw_to_tokens_plan);
        }
        let hw = self.area(t);
        let dst = self.dt(t.c, 1, hw);
        let n = self.elements(t);
        self.launch_over(
            Kernel::NchwToTokens,
            n,
            vec![Arg::Ptr(t.buf), Arg::Ptr(dst.buf), Arg::Int(t.c), Arg::Int(hw)],
        );
        self.done(dst)
    }
}

// ---- broken plans ---------------------------------------------------------------------

/// Nothing is added to a broken plan.
pub broadcast proof fn lemma_unary_broken(kernel: Kernel, src: DTensor)
    ensures
        #[trigger] unary_plan(Plan::Broken, kernel, src) == (Plan::Broken, no_tensor()),
{
    reveal(unary_plan);
}

/// Nothing is added to a broken plan.
pub broadcast proof fn lemma_double_sigmoid_broken(x: DTensor)
    ensures
        #[trigger] double_sigmoid_plan(Plan::Broken, x) == (Plan::Broken, no_tensor()),
{
    reveal(double_sigmoid_plan);
}

/// Nothing is added to a broken plan.
pub broadcast proof fn lemma_affine_broken(src: DTensor, scale: Dw, shift: Dw)
    ensures
        #[trigger] affine_plan(Plan::Broken, src, scale, shift) == (Plan::Broken, no_tensor()),
{
    reveal(affine_plan);
}

/// Nothing is added to a broken plan.
pub broadcast proof fn lemma_conv_broken(
    src: DTensor,
    w: Dw,
    bias: Option<usize>,
    k: usize,
    stride4: bool,
)
    ensures
        #[trigger] conv_plan(Plan::Broken, src, w, bias, k, stride4) == (Plan::Broken, no_tensor()),
{
    reveal(conv_plan);
}

/// Nothing is added to a broken plan.
pub broadcast proof fn lemma_linear_1x1_broken(src: DTensor, w: Dw, bias: Option<usize>)
    ensures
        #[trigger] linear_1x1_plan(Plan::Broken, src, w, bias) == (Plan::Broken, no_tensor()),
{
    reveal(linear_1x1_plan);
}

/// Nothing is added to a broken plan.
pub broadcast proof fn lemma_linear_broken(x: DTensor, w: Dw, b: Option<usize>, rows: usize)
    ensures
        #[trigger] linear_plan(Plan::Broken, x, w, b, rows) == (Plan::Broken, no_tensor()),
{
    reveal(linear_plan);
}

/// Nothing is added to a broken plan.
pub broadcast proof fn lemma_add_crop_tokens_broken(
    x: DTensor,
    buf: DTensor,
    out: DTensor,
    h: usize,
    w: usize,
    hp: usize,
    wp: usize,
)
    ensures
        #[trigger] add_crop_tokens_plan(Plan::Broken, x, buf, out, h, w, hp, wp) == Plan::Broken,
{
    reveal(add_crop_tokens_plan);
}

/// Nothing is added to a broken plan.
pub broadcast proof fn lemma_layernorm_broken(src: DTensor, w: Dw, b: Dw, eps: u32)
    ensures
        #[trigger] layernorm_plan(Plan::Broken, src, w, b, eps) == (Plan::Broken, no_tensor()),
{
    reveal(layernorm_plan);
}

/// Nothing is added to a broken plan.
pub broadcast proof fn lemma_resize_bilinear_broken(src: DTensor, oh: usize, ow: usize, align: bool)
    ensures
        #[trigger] resize_bilinear_plan(
            Plan::Broken,
            src,
            oh,
            ow,
            align,
        ) == (Plan::Broken, no_tensor()),
{
    reveal(resize_bilinear_plan);
}

/// Nothing is added to a broken plan.
pub broadcast proof fn lemma_global_avg_pool_broken(src: DTensor)
    ensures
        #[trigger] global_avg_pool_plan(Plan::Broken, src) == (Plan::Broken, no_tensor()),
{
    reveal(global_avg_pool_plan);
}

/// Nothing is added to a broken plan.
pub broadcast proof fn lemma_deform_conv_broken(
    x: DTensor,
    offset: DTensor,
    mask: DTensor,
    w: Dw,
    k: usize,
    pad: usize,
)
    ensures
        #[trigger] deform_conv_plan(
            Plan::Broken,
            x,
            offset,
            mask,
            w,
            k,
            pad,
        ) == (Plan::Broken, no_tensor()),
{
    reveal(deform_conv_plan);
}

/// Nothing is added to a broken plan.
pub broadcast proof fn lemma_window_from_padded_broken(
    padded: DTensor,
    out: DTensor,
    hp: usize,
    wp: usize,
    win: usize,
)
    ensures
        #[trigger] window_from_padded_plan(Plan::Broken, padded, out, hp, wp, win) == Plan::Broken,
{
    reveal(window_from_padded_plan);
}

/// Nothing is added to a broken plan.
pub broadcast proof fn lemma_window_to_padded_broken(
    wins: DTensor,
    padded: DTensor,
    hp: usize,
    wp: usize,
    win: usize,
)
    ensures
        #[trigger] window_to_padded_plan(Plan::Broken, wins, padded, hp, wp, win) == Plan::Broken,
{
    reveal(window_to_padded_plan);
}

/// Nothing is added to a broken plan.
pub broadcast proof fn lemma_add_inplace_broken(dst: DTensor, src: DTensor)
    ensures
        #[trigger] add_inplace_plan(Plan::Broken, dst, src) == (Plan::Broken, no_tensor()),
{
    reveal(add_inplace_plan);
}

/// Nothing is added to a broken plan.
pub broadcast proof fn lemma_patch_merge_broken(src: DTensor, h: usize, w: usize)
    ensures
        #[trigger] patch_merge_plan(Plan::Broken, src, h, w) == (Plan::Broken, no_tensor()),
{
    reveal(patch_merge_plan);
}

/// Nothing is added to a broken plan.
pub broadcast proof fn lemma_tile_patches_broken(src: DTensor, ph: usize, pw: usize)
    ensures
        #[trigger] tile_patches_plan(Plan::Broken, src, ph, pw) == (Plan::Broken, no_tensor()),
{
    reveal(tile_patches_plan);
}

/// Nothing is added to a broken plan.
pub broadcast proof fn lemma_mul_broadcast_channel_broken(x: DTensor, a: DTensor)
    ensures
        #[trigger] mul_broadcast_channel_plan(Plan::Broken, x, a) == Plan::Broken,
{
    reveal(mul_broadcast_channel_plan);
}

/// Nothing is added to a broken plan.
pub broadcast proof fn lemma_tokens_to_nchw_broken(t: DTensor, h: usize, w: usize)
    ensures
        #[trigger] tokens_to_nchw_plan(Plan::Broken, t, h, w) == (Plan::Broken, no_tensor()),
{
    reveal(tokens_to_nchw_plan);
}

/// Nothing is added to a broken plan.
pub broadcast proof fn lemma_nchw_to_tokens_broken(t: DTensor)
    ensures
        #[trigger] nchw_to_tokens_plan(Plan::Broken, t) == (Plan::Broken, no_tensor()),
{
    reveal(nchw_to_tokens_plan);
}

/// Nothing is added to a broken plan.
pub broadcast proof fn lemma_cat_broken(parts: Seq<DTensor>)
    ensures
        #[trigger] cat_plan(Plan::Broken, parts) == (Plan::Broken, no_tensor()),
{
    reveal(cat_plan);
    lemma_copies_broken(parts, no_tensor(), parts.len() as int);
}

/// Nothing is added to a broken plan.
pub broadcast group group_broken_ops {
    lemma_unary_broken,
    lemma_double_sigmoid_broken,
    lemma_affine_broken,
    lemma_conv_broken,
    lemma_linear_1x1_broken,
    lemma_linear_broken,
    lemma_add_crop_tokens_broken,
    lemma_layernorm_broken,
    lemma_resize_bilinear_broken,
    lemma_global_avg_pool_broken,
    lemma_deform_conv_broken,
    lemma_window_from_padded_broken,
    lemma_window_to_padded_broken,
    lemma_add_inplace_broken,
    lemma_patch_merge_broken,
    lemma_tile_patches_broken,
    lemma_mul_broadcast_channel_broken,
    lemma_tokens_to_nchw_broken,
    lemma_nchw_to_tokens_broken,
    lemma_cat_broken,
}

// ---- what was planned stays planned ---------------------------------------------------

/// What is said of a plan stays true with the operation behind it.
pub broadcast proof fn lemma_unary_keeps(base: Mark, p: Plan, kernel: Kernel, src: DTensor)
    requires
        keeps(base, p),
    ensures
        #[trigger] keeps(base, unary_plan(p, kernel, src).0),
{
    reveal(unary_plan);
}

/// What is said of a plan stays true with the operation behind it.
pub broadcast proof fn lemma_double_sigmoid_keeps(base: Mark, p: Plan, x: DTensor)
    requires
        keeps(base, p),
    ensures
        #[trigger] keeps(base, double_sigmoid_plan(p, x).0),
{
    reveal(double_sigmoid_plan);
}

/// What is said of a plan stays true with the operation behind it.
pub broadcast proof fn lemma_affine_keeps(base: Mark, p: Plan, src: DTensor, scale: Dw, shift: Dw)
    requires
        keeps(base, p),
    ensures
        #[trigger] keeps(base, affine_plan(p, src, scale, shift).0),
{
    reveal(affine_plan);
}

/// What is said of a plan stays true with the operation behind it.
pub broadcast proof fn lemma_conv_keeps(
    base: Mark,
    p: Plan,
    src: DTensor,
    w: Dw,
    bias: Option<usize>,
    k: usize,
    stride4: bool,
)
    requires
        keeps(base, p),
    ensures
        #[trigger] keeps(base, conv_plan(p, src, w, bias, k, stride4).0),
{
    reveal(conv_plan);
}

/// What is said of a plan stays true with the operation behind it.
pub broadcast proof fn lemma_linear_1x1_keeps(
    base: Mark,
    p: Plan,
    src: DTensor,
    w: Dw,
    bias: Option<usize>,
)
    requires
        keeps(base, p),
    ensures
        #[trigger] keeps(base, linear_1x1_plan(p, src, w, bias).0),
{
    reveal(linear_1x1_plan);
}

/// What is said of a plan stays true with the operation behind it.
pub broadcast proof fn lemma_linear_keeps(
    base: Mark,
    p: Plan,
    x: DTensor,
    w: Dw,
    b: Option<usize>,
    rows: usize,
)
    requires
        keeps(base, p),
    ensures
        #[trigger] keeps(base, linear_plan(p, x, w, b, rows).0),
{
    reveal(linear_plan);
}

/// What is said of a plan stays true with the operation behind it.
pub broadcast proof fn lemma_add_crop_tokens_keeps(
    base: Mark,
    p: Plan,
    x: DTensor,
    buf: DTensor,
    out: DTensor,
    h: usize,
    w: usize,
    hp: usize,
    wp: usize,
)
    requires
        keeps(base, p),
    ensures
        #[trigger] keeps(base, add_crop_tokens_plan(p, x, buf, out, h, w, hp, wp)),
{
    reveal(add_crop_tokens_plan);
}

/// What is said of a plan stays true with the operation behind it.
pub broadcast proof fn lemma_layernorm_keeps(
    base: Mark,
    p: Plan,
    src: DTensor,
    w: Dw,
    b: Dw,
    eps: u32,
)
    requires
        keeps(base, p),
    ensures
        #[trigger] keeps(base, layernorm_plan(p, src, w, b, eps).0),
{
    reveal(layernorm_plan);
}

/// What is said of a plan stays true with the operation behind it.
pub broadcast proof fn lemma_resize_bilinear_keeps(
    base: Mark,
    p: Plan,
    src: DTensor,
    oh: usize,
    ow: usize,
    align: bool,
)
    requires
        keeps(base, p),
    ensures
        #[trigger] keeps(base, resize_bilinear_plan(p, src, oh, ow, align).0),
{
    reveal(resize_bilinear_plan);
}

/// What is said of a plan stays true with the operation behind it.
pub broadcast proof fn lemma_global_avg_pool_keeps(base: Mark, p: Plan, src: DTensor)
    requires
        keeps(base, p),
    ensures
        #[trigger] keeps(base, global_avg_pool_plan(p, src).0),
{
    reveal(global_avg_pool_plan);
}

/// What is said of a plan stays true with the operation behind it.
pub broadcast proof fn lemma_deform_conv_keeps(
    base: Mark,
    p: Plan,
    x: DTensor,
    offset: DTensor,
    mask: DTensor,
    w: Dw,
    k: usize,
    pad: usize,
)
    requires
        keeps(base, p),
    ensures
        #[trigger] keeps(base, deform_conv_plan(p, x, offset, mask, w, k, pad).0),
{
    reveal(deform_conv_plan);
}

/// What is said of a plan stays true with the operation behind it.
pub broadcast proof fn lemma_window_from_padded_keeps(
    base: Mark,
    p: Plan,
    padded: DTensor,
    out: DTensor,
    hp: usize,
    wp: usize,
    win: usize,
)
    requires
        keeps(base, p),
    ensures
        #[trigger] keeps(base, window_from_padded_plan(p, padded, out, hp, wp, win)),
{
    reveal(window_from_padded_plan);
}

/// What is said of a plan stays true with the operation behind it.
pub broadcast proof fn lemma_window_to_padded_keeps(
    base: Mark,
    p: Plan,
    wins: DTensor,
    padded: DTensor,
    hp: usize,
    wp: usize,
    win: usize,
)
    requires
        keeps(base, p),
    ensures
        #[trigger] keeps(base, window_to_padded_plan(p, wins, padded, hp, wp, win)),
{
    reveal(window_to_padded_plan);
}

/// What is said of a plan stays true with the operation behind it.
pub broadcast proof fn lemma_add_inplace_keeps(base: Mark, p: Plan, dst: DTensor, src: DTensor)
    requires
        keeps(base, p),
    ensures
        #[trigger] keeps(base, add_inplace_plan(p, dst, src).0),
{
    reveal(add_inplace_plan);
}

/// What is said of a plan stays true with the operation behind it.
pub broadcast proof fn lemma_patch_merge_keeps(
    base: Mark,
    p: Plan,
    src: DTensor,
    h: usize,
    w: usize,
)
    requires
        keeps(base, p),
    ensures
        #[trigger] keeps(base, patch_merge_plan(p, src, h, w).0),
{
    reveal(patch_merge_plan);
}

/// What is said of a plan stays true with the operation behind it.
pub broadcast proof fn lemma_tile_patches_keeps(
    base: Mark,
    p: Plan,
    src: DTensor,
    ph: usize,
    pw: usize,
)
    requires
        keeps(base, p),
    ensures
        #[trigger] keeps(base, tile_patches_plan(p, src, ph, pw).0),
{
    reveal(tile_patches_plan);
}

/// What is said of a plan stays true with the operation behind it.
pub broadcast proof fn lemma_mul_broadcast_channel_keeps(
    base: Mark,
    p: Plan,
    x: DTensor,
    a: DTensor,
)
    requires
        keeps(base, p),
    ensures
        #[trigger] keeps(base, mul_broadcast_channel_plan(p, x, a)),
{
    reveal(mul_broadcast_channel_plan);
}

/// What is said of a plan stays true with the operation behind it.
pub broadcast proof fn lemma_tokens_to_nchw_keeps(
    base: Mark,
    p: Plan,
    t: DTensor,
    h: usize,
    w: usize,
)
    requires
        keeps(base, p),
    ensures
        #[trigger] keeps(base, tokens_to_nchw_plan(p, t, h, w).0),
{
    reveal(tokens_to_nchw_plan);
}

/// What is said of a plan stays true with the operation behind it.
pub broadcast proof fn lemma_nchw_to_tokens_keeps(base: Mark, p: Plan, t: DTensor)
    requires
        keeps(base, p),
    ensures
        #[trigger] keeps(base, nchw_to_tokens_plan(p, t).0),
{
    reveal(nchw_to_tokens_plan);
}

proof fn lemma_copies_keep(base: Mark, p: Plan, parts: Seq<DTensor>, dst: DTensor, n: int)
    requires
        keeps(base, p),
    ensures
        keeps(base, copies_plan(p, parts, dst, n)),
    decreases n,
{
    if n > 0 {
        lemma_copies_keep(base, p, parts, dst, n - 1);
    }
}

/// What is said of a plan stays true with the operation behind it.
pub broadcast proof fn lemma_cat_keeps(base: Mark, p: Plan, parts: Seq<DTensor>)
    requires
        keeps(base, p),
    ensures
        #[trigger] keeps(base, cat_plan(p, parts).0),
{
    reveal(cat_plan);
    let all = channels(parts, parts.len() as int);
    let (q, dst) = dt_plan(
        provided(p, parts.len() > 0 && all <= usize::MAX),
        all,
        parts[0].h as int,
        parts[0].w as int,
    );
    lemma_copies_keep(base, q, parts, dst, parts.len() as int);
}

/// What is said of a plan stays true with the operations behind it.
pub broadcast group group_keeps_ops {
    lemma_unary_keeps,
    lemma_double_sigmoid_keeps,
    lemma_affine_keeps,
    lemma_conv_keeps,
    lemma_linear_1x1_keeps,
    lemma_linear_keeps,
    lemma_add_crop_tokens_keeps,
    lemma_layernorm_keeps,
    lemma_resize_bilinear_keeps,
    lemma_global_avg_pool_keeps,
    lemma_deform_conv_keeps,
    lemma_window_from_padded_keeps,
    lemma_window_to_padded_keeps,
    lemma_add_inplace_keeps,
    lemma_patch_merge_keeps,
    lemma_tile_patches_keeps,
    lemma_mul_broadcast_channel_keeps,
    lemma_tokens_to_nchw_keeps,
    lemma_nchw_to_tokens_keeps,
    lemma_cat_keeps,
}

} // verus!
