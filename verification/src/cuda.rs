//! The work of the device, as a list of commands.
//!
//! What runs on the device is planned first: which buffers there are, what goes into
//! them, and which kernels are launched over which grids with which arguments. A plan
//! that would need more elements than can be counted is broken.

use crate::layout::steps;
use vstd::prelude::*;
use vstd::string::StringExecFns;

verus! {

/// Information on a device.
#[derive(Clone, Debug)]
pub struct DeviceInfo {
    pub index: i32,
    pub name: String,
    pub cc_major: i32,
    pub cc_minor: i32,
    pub total_mem: usize,
}

// ---- kernels --------------------------------------------------------------------------

/// The kernels that are launched.
#[derive(Clone, Copy, PartialEq, Eq, Debug, Structural)]
pub enum Kernel {
    Add,
    Copy,
    Conv1x1,
    ConvKxk,
    Conv3x3,
    Conv4x4,
    LayerNorm,
    ChannelAffine,
    GeluErf,
    Relu,
    Sigmoid,
    ResizeBilinear,
    DeformConv,
    DoubleSigmoid,
    ChannelMean,
    ChannelCopy,
    Linear1x1,
    RepackAttn,
    AttnScores,
    SoftmaxRows,
    AttnApply,
    WindowGather,
    WindowScatter,
    PadTokens,
    RollTokens,
    AddCrop,
    PatchMerge,
    TilePatches,
    MulBroadcast,
    NchwToTokens,
    TokensToNchw,
    Linear,
    AddCropTokens,
}

impl Kernel {
    /// The name under which a kernel is found.
    pub open spec fn text(self) -> Seq<char> {
        match self {
            Kernel::Add => "lg_add"@,
            Kernel::Copy => "lg_copy"@,
            Kernel::Conv1x1 => "lg_conv1x1"@,
            Kernel::ConvKxk => "lg_conv_kxk"@,
            Kernel::Conv3x3 => "lg_conv3x3s1p1"@,
            Kernel::Conv4x4 => "lg_conv4x4s4"@,
            Kernel::LayerNorm => "lg_layer_norm"@,
            Kernel::ChannelAffine => "lg_channel_affine"@,
            Kernel::GeluErf => "lg_gelu_erf"@,
            Kernel::Relu => "lg_relu"@,
            Kernel::Sigmoid => "lg_sigmoid"@,
            Kernel::ResizeBilinear => "lg_resize_bilinear"@,
            Kernel::DeformConv => "lg_deform_conv"@,
            Kernel::DoubleSigmoid => "lg_double_sigmoid"@,
            Kernel::ChannelMean => "lg_channel_mean"@,
            Kernel::ChannelCopy => "lg_channel_copy"@,
            Kernel::Linear1x1 => "lg_linear_1x1"@,
            Kernel::RepackAttn => "lg_repack_attn"@,
            Kernel::AttnScores => "lg_attn_scores"@,
            Kernel::SoftmaxRows => "lg_softmax_rows"@,
            Kernel::AttnApply => "lg_attn_apply"@,
            Kernel::WindowGather => "lg_window_gather"@,
            Kernel::WindowScatter => "lg_window_scatter"@,
            Kernel::PadTokens => "lg_pad_tokens"@,
            Kernel::RollTokens => "lg_roll_tokens"@,
            Kernel::AddCrop => "lg_add_crop"@,
            Kernel::PatchMerge => "lg_patch_merge"@,
            Kernel::TilePatches => "lg_tile_patches"@,
            Kernel::MulBroadcast => "lg_mul_broadcast"@,
            Kernel::NchwToTokens => "lg_nchw_to_tokens"@,
            Kernel::TokensToNchw => "lg_tokens_to_nchw"@,
            Kernel::Linear => "lg_linear"@,
            Kernel::AddCropTokens => "lg_add_crop_tokens"@,
        }
    }

    /// The name under which a kernel is found.
    pub fn name(self) -> (r: &'static str)
        ensures
            r@ == self.text(),
    {
        match self {
            Kernel::Add => "lg_add",
            Kernel::Copy => "lg_copy",
            Kernel::Conv1x1 => "lg_conv1x1",
            Kernel::ConvKxk => "lg_conv_kxk",
            Kernel::Conv3x3 => "lg_conv3x3s1p1",
            Kernel::Conv4x4 => "lg_conv4x4s4",
            Kernel::LayerNorm => "lg_layer_norm",
            Kernel::ChannelAffine => "lg_channel_affine",
            Kernel::GeluErf => "lg_gelu_erf",
            Kernel::Relu => "lg_relu",
            Kernel::Sigmoid => "lg_sigmoid",
            Kernel::ResizeBilinear => "lg_resize_bilinear",
            Kernel::DeformConv => "lg_deform_conv",
            Kernel::DoubleSigmoid => "lg_double_sigmoid",
            Kernel::ChannelMean => "lg_channel_mean",
            Kernel::ChannelCopy => "lg_channel_copy",
            Kernel::Linear1x1 => "lg_linear_1x1",
            Kernel::RepackAttn => "lg_repack_attn",
            Kernel::AttnScores => "lg_attn_scores",
            Kernel::SoftmaxRows => "lg_softmax_rows",
            Kernel::AttnApply => "lg_attn_apply",
            Kernel::WindowGather => "lg_window_gather",
            Kernel::WindowScatter => "lg_window_scatter",
            Kernel::PadTokens => "lg_pad_tokens",
            Kernel::RollTokens => "lg_roll_tokens",
            Kernel::AddCrop => "lg_add_crop",
            Kernel::PatchMerge => "lg_patch_merge",
            Kernel::TilePatches => "lg_tile_patches",
            Kernel::MulBroadcast => "lg_mul_broadcast",
            Kernel::NchwToTokens => "lg_nchw_to_tokens",
            Kernel::TokensToNchw => "lg_tokens_to_nchw",
            Kernel::Linear => "lg_linear",
            Kernel::AddCropTokens => "lg_add_crop_tokens",
        }
    }
}

/// All kernels, which a device is to have before anything is planned for it.
pub open spec fn kernel_list() -> Seq<Kernel> {
    seq![
        Kernel::Add,
        Kernel::Copy,
        Kernel::Conv1x1,
        Kernel::ConvKxk,
        Kernel::Conv3x3,
        Kernel::Conv4x4,
        Kernel::LayerNorm,
        Kernel::ChannelAffine,
        Kernel::GeluErf,
        Kernel::Relu,
        Kernel::Sigmoid,
        Kernel::ResizeBilinear,
        Kernel::DeformConv,
        Kernel::DoubleSigmoid,
        Kernel::ChannelMean,
        Kernel::ChannelCopy,
        Kernel::Linear1x1,
        Kernel::RepackAttn,
        Kernel::AttnScores,
        Kernel::SoftmaxRows,
        Kernel::AttnApply,
        Kernel::WindowGather,
        Kernel::WindowScatter,
        Kernel::PadTokens,
        Kernel::RollTokens,
        Kernel::AddCrop,
        Kernel::PatchMerge,
        Kernel::TilePatches,
        Kernel::MulBroadcast,
        Kernel::NchwToTokens,
        Kernel::TokensToNchw,
        Kernel::Linear,
        Kernel::AddCropTokens,
    ]
}

/// All kernels.
pub fn kernels() -> (r: Vec<Kernel>)
    ensures
        r@ == kernel_list(),
{
    vec![
        Kernel::Add,
        Kernel::Copy,
        Kernel::Conv1x1,
        Kernel::ConvKxk,
        Kernel::Conv3x3,
        Kernel::Conv4x4,
        Kernel::LayerNorm,
        Kernel::ChannelAffine,
        Kernel::GeluErf,
        Kernel::Relu,
        Kernel::Sigmoid,
        Kernel::ResizeBilinear,
        Kernel::DeformConv,
        Kernel::DoubleSigmoid,
        Kernel::ChannelMean,
        Kernel::ChannelCopy,
        Kernel::Linear1x1,
        Kernel::RepackAttn,
        Kernel::AttnScores,
        Kernel::SoftmaxRows,
        Kernel::AttnApply,
        Kernel::WindowGather,
        Kernel::WindowScatter,
        Kernel::PadTokens,
        Kernel::RollTokens,
        Kernel::AddCrop,
        Kernel::PatchMerge,
        Kernel::TilePatches,
        Kernel::MulBroadcast,
        Kernel::NchwToTokens,
        Kernel::TokensToNchw,
        Kernel::Linear,
        Kernel::AddCropTokens,
    ]
}

/// Every kernel that can be launched is among those that a device is to have.
pub proof fn lemma_kernels_listed(k: Kernel)
    ensures
        kernel_list().contains(k),
{
    let l = kernel_list();
    assert(l[0] == Kernel::Add && l[1] == Kernel::Copy && l[2] == Kernel::Conv1x1);
    assert(l[3] == Kernel::ConvKxk && l[4] == Kernel::Conv3x3 && l[5] == Kernel::Conv4x4);
    assert(l[6] == Kernel::LayerNorm && l[7] == Kernel::ChannelAffine && l[8] == Kernel::GeluErf);
    assert(l[9] == Kernel::Relu && l[10] == Kernel::Sigmoid && l[11] == Kernel::ResizeBilinear);
    assert(l[12] == Kernel::DeformConv && l[13] == Kernel::DoubleSigmoid);
    assert(l[14] == Kernel::ChannelMean && l[15] == Kernel::ChannelCopy);
    assert(l[16] == Kernel::Linear1x1 && l[17] == Kernel::RepackAttn);
    assert(l[18] == Kernel::AttnScores && l[19] == Kernel::SoftmaxRows);
    assert(l[20] == Kernel::AttnApply && l[21] == Kernel::WindowGather);
    assert(l[22] == Kernel::WindowScatter && l[23] == Kernel::PadTokens);
    assert(l[24] == Kernel::RollTokens && l[25] == Kernel::AddCrop && l[26] == Kernel::PatchMerge);
    assert(l[27] == Kernel::TilePatches && l[28] == Kernel::MulBroadcast);
    assert(l[29] == Kernel::NchwToTokens && l[30] == Kernel::TokensToNchw);
    assert(l[31] == Kernel::Linear && l[32] == Kernel::AddCropTokens);
}

/// The module a kernel is launched from.
#[derive(Clone, Copy, PartialEq, Eq, Debug, Structural)]
pub enum Home {
    /// The kernels of this project.
    Swin,
    /// The kernels of the toolkit.
    Toolkit,
}

/// Where a kernel is launched from, given the modules that have it: this project's own module
/// comes first.
pub open spec fn home_of(in_swin: bool, in_toolkit: bool) -> Option<Home> {
    if in_swin {
        Some(Home::Swin)
    } else if in_toolkit {
        Some(Home::Toolkit)
    } else {
        None
    }
}

/// Where a kernel is launched from; `None` where no module has it.
pub fn module_of(in_swin: bool, in_toolkit: bool) -> (r: Option<Home>)
    ensures
        r == home_of(in_swin, in_toolkit),
{
    if in_swin {
        Some(Home::Swin)
    } else if in_toolkit {
        Some(Home::Toolkit)
    } else {
        None
    }
}

/// Resolves every kernel, before anything is launched: the first one that neither module has,
/// if there is one. The two lists say of each kernel, in the order of `kernels`, whether the
/// module has it.
pub fn resolve_kernels(in_swin: &[bool], in_toolkit: &[bool]) -> (r: Result<(), Kernel>)
    requires
        in_swin@.len() == kernel_list().len(),
        in_toolkit@.len() == kernel_list().len(),
    ensures
        r is Ok <==> (forall|i: int|
            0 <= i < kernel_list().len() ==> home_of(
                #[trigger] in_swin@[i],
                in_toolkit@[i],
            ) is Some),
        r matches Err(k) ==> exists|i: int|
            {
                &&& 0 <= i < kernel_list().len()
                &&& k == #[trigger] kernel_list()[i]
                &&& home_of(in_swin@[i], in_toolkit@[i]) is None
                &&& forall|j: int|
                    0 <= j < i ==> home_of(#[trigger] in_swin@[j], in_toolkit@[j]) is Some
            },
{
    let all = kernels();
    let mut i: usize = 0;
    while i < all.len()
        invariant
            i <= all@.len(),
            all@ == kernel_list(),
            in_swin@.len() == all@.len(),
            in_toolkit@.len() == all@.len(),
            forall|j: int| 0 <= j < i ==> home_of(#[trigger] in_swin@[j], in_toolkit@[j]) is Some,
        decreases all.len() - i,
    {
        if module_of(in_swin[i], in_toolkit[i]).is_none() {
            assert(all@[i as int] == kernel_list()[i as int]);
            assert(home_of(in_swin@[i as int], in_toolkit@[i as int]) is None);
            return Err(all[i]);
        }
        i += 1;
    }
    Ok(())
}

// ---- grids ----------------------------------------------------------------------------

/// Threads of a block.
pub const THREADS: u32 = 256;

/// Number of blocks that cover `n` elements.
pub open spec fn grid_of(n: int) -> u32 {
    steps(n, 256) as u32
}

/// Number of blocks that cover `n` elements.
pub fn grid_for(n: usize) -> (r: u32)
    requires
        n + 255 <= usize::MAX,
    ensures
        r == grid_of(n as int),
{
    ((n + 255) / 256) as u32
}

/// The blocks of a grid have a thread for every element, and no block is idle.
pub proof fn lemma_grid_covers(n: int)
    requires
        0 <= n,
        steps(n, 256) <= u32::MAX,
    ensures
        n <= grid_of(n) * 256 < n + 256,
{
}

/// The least power of two from `p` on that is not below `n`, at most 1024.
pub open spec fn threads_from(p: int, n: int) -> int
    decreases 2048 - p,
{
    if p >= 1024 || p >= n || p <= 0 {
        p
    } else {
        threads_from(2 * p, n)
    }
}

/// Threads of a block that reduces rows of `n` elements: the least power of two that is not
/// below `n`, at most 1024.
pub fn row_threads(n: usize) -> (r: u32)
    ensures
        r == threads_from(1, n as int),
        1 <= r <= 1024,
{
    let mut p: u32 = 1;
    while p < 1024 && (p as usize) < n
        invariant
            1 <= p <= 1024,
            p == 1 || p == 2 || p == 4 || p == 8 || p == 16 || p == 32 || p == 64 || p == 128 || p
                == 256 || p == 512 || p == 1024,
            threads_from(1, n as int) == threads_from(p as int, n as int),
        decreases 2048 - p,
    {
        p = 2 * p;
    }
    p
}

// ---- tensors on the device ------------------------------------------------------------

/// A tensor in a buffer of the device. An empty tensor has no buffer.
#[derive(Clone, Copy, PartialEq, Eq, Debug, Structural)]
pub struct DTensor {
    pub c: usize,
    pub h: usize,
    pub w: usize,
    pub buf: Option<usize>,
}

/// No tensor.
pub open spec fn no_tensor() -> DTensor {
    DTensor { c: 0, h: 0, w: 0, buf: None }
}

impl DTensor {
    /// Number of elements of a plane.
    pub open spec fn area(self) -> int {
        self.h * self.w
    }

    /// Number of elements.
    pub open spec fn size(self) -> int {
        self.c * (self.h * self.w)
    }

    /// Number of elements of a plane.
    pub fn hw(&self) -> (r: usize)
        requires
            self.area() <= usize::MAX,
        ensures
            r == self.area(),
    {
        self.h * self.w
    }

    /// Number of elements.
    pub fn len(&self) -> (r: usize)
        requires
            self.area() <= usize::MAX,
            self.size() <= usize::MAX,
        ensures
            r == self.size(),
    {
        self.c * (self.h * self.w)
    }
}

/// A weight on the device, with its shape.
#[derive(Debug)]
pub struct DW {
    pub buf: Option<usize>,
    pub shape: Vec<usize>,
}

/// A weight as a mathematical value.
#[verifier::ext_equal]
pub struct Dw {
    pub buf: Option<usize>,
    pub shape: Seq<usize>,
}

impl View for DW {
    type V = Dw;

    open spec fn view(&self) -> Dw {
        Dw { buf: self.buf, shape: self.shape@ }
    }
}

impl Clone for DW {
    fn clone(&self) -> (r: Self)
        ensures
            r@ == self@,
    {
        DW { buf: self.buf, shape: crate::tensor::copied(&self.shape) }
    }
}

impl DW {
    /// Number of outputs.
    pub fn oc(&self) -> (r: usize)
        requires
            1 <= self.shape@.len(),
        ensures
            r == self.shape@[0],
    {
        self.shape[0]
    }

    /// Number of inputs.
    pub fn ic(&self) -> (r: usize)
        requires
            2 <= self.shape@.len(),
        ensures
            r == self.shape@[1],
    {
        self.shape[1]
    }
}

// ---- commands -------------------------------------------------------------------------

/// An argument of a kernel.
#[derive(Clone, Copy, PartialEq, Eq, Debug, Structural)]
pub enum Arg {
    /// A buffer, or the null pointer.
    Ptr(Option<usize>),
    /// An integer that is passed in 32 bits.
    Int(usize),
    /// An integer that is passed in 64 bits.
    Long(usize),
    /// The number with this bit pattern.
    Bits(u32),
    /// One over the square root of a number.
    InverseRoot(usize),
}

/// What goes into a buffer. `B` holds bytes, `S` holds text.
#[verifier::reject_recursive_types(B)]
#[verifier::reject_recursive_types(S)]
#[derive(Debug)]
pub enum Source<B, S> {
    /// The numbers of a tensor of the weights.
    Weight(B),
    /// The scale of the batch norm under a prefix.
    Scale(S),
    /// The shift of the batch norm under a prefix.
    Shift(S),
    /// The mask of a grid.
    Mask { hp: usize, wp: usize },
    /// The image.
    Input,
    /// Numbers that are kept in a list, by their place in it.
    Given(usize),
}

impl View for Source<Vec<u8>, String> {
    type V = Source<Seq<u8>, Seq<char>>;

    open spec fn view(&self) -> Source<Seq<u8>, Seq<char>> {
        match *self {
            Source::Weight(b) => Source::Weight(b@),
            Source::Scale(s) => Source::Scale(s@),
            Source::Shift(s) => Source::Shift(s@),
            Source::Mask { hp, wp } => Source::Mask { hp, wp },
            Source::Input => Source::Input,
            Source::Given(i) => Source::Given(i),
        }
    }
}

/// The shape of a launch.
#[derive(Clone, Copy, PartialEq, Eq, Debug)]
pub struct Shape {
    pub grid: (u32, u32, u32),
    pub block: (u32, u32, u32),
    pub shared: u32,
}

/// A command. `A` holds arguments, `B` holds bytes, `S` holds text.
#[verifier::reject_recursive_types(A)]
#[verifier::reject_recursive_types(B)]
#[verifier::reject_recursive_types(S)]
#[derive(Debug)]
pub enum Cmd<A, B, S> {
    /// A buffer of so many elements.
    Alloc { buf: usize, len: usize },
    /// A buffer with these elements.
    Upload { buf: usize, len: usize, source: Source<B, S> },
    /// A kernel over a grid.
    Launch { kernel: Kernel, shape: Shape, args: A },
    /// A tensor that is to be written.
    Save { name: S, t: DTensor },
}

impl View for Cmd<Vec<Arg>, Vec<u8>, String> {
    type V = Cmd<Seq<Arg>, Seq<u8>, Seq<char>>;

    open spec fn view(&self) -> Cmd<Seq<Arg>, Seq<u8>, Seq<char>> {
        match *self {
            Cmd::Alloc { buf, len } => Cmd::Alloc { buf, len },
            Cmd::Upload { buf, len, source } => Cmd::Upload { buf, len, source: source@ },
            Cmd::Launch { kernel, shape, args } => Cmd::Launch { kernel, shape, args: args@ },
            Cmd::Save { name, t } => Cmd::Save { name: name@, t },
        }
    }
}

/// A command as it is planned.
pub type Command = Cmd<Vec<Arg>, Vec<u8>, String>;

/// A plan as a mathematical value: the next buffer, the buffers that are free again with
/// their lengths, and the commands.
#[verifier::ext_equal]
pub enum Plan {
    Broken,
    Going {
        next: usize,
        free: Seq<(usize, usize)>,
        cmds: Seq<Cmd<Seq<Arg>, Seq<u8>, Seq<char>>>,
    },
}

/// A plan for the device. `weights` holds the buffers of the weights, in the order of their
/// names.
#[derive(Debug)]
pub struct CudaModel {
    pub weights: Vec<Option<usize>>,
    pub next: usize,
    pub broken: bool,
    pub free: Vec<(usize, usize)>,
    pub cmds: Vec<Cmd<Vec<Arg>, Vec<u8>, String>>,
}

/// Commands as mathematical values.
pub open spec fn acts(cmds: Seq<Cmd<Vec<Arg>, Vec<u8>, String>>) -> Seq<
    Cmd<Seq<Arg>, Seq<u8>, Seq<char>>,
> {
    cmds.map_values(|c: Cmd<Vec<Arg>, Vec<u8>, String>| c@)
}

impl View for CudaModel {
    type V = Plan;

    open spec fn view(&self) -> Plan {
        if self.broken {
            Plan::Broken
        } else {
            Plan::Going { next: self.next, free: self.free@, cmds: acts(self.cmds@) }
        }
    }
}

// ---- the primitives of planning -------------------------------------------------------

/// The plan with one more command.
pub open spec fn with_cmd(p: Plan, c: Cmd<Seq<Arg>, Seq<u8>, Seq<char>>) -> Plan {
    match p {
        Plan::Broken => Plan::Broken,
        Plan::Going { next, free, cmds } => Plan::Going { next, free, cmds: cmds.push(c) },
    }
}

/// The plan, broken where the condition does not hold.
pub open spec fn provided(p: Plan, ok: bool) -> Plan {
    if ok {
        p
    } else {
        Plan::Broken
    }
}

/// The tensor, none where the plan is broken.
pub open spec fn made(p: Plan, t: DTensor) -> DTensor {
    if p is Broken {
        no_tensor()
    } else {
        t
    }
}

/// The last of the first `k` free buffers that has this length.
pub open spec fn last_free(free: Seq<(usize, usize)>, n: int, k: int) -> Option<int>
    decreases k,
{
    if k <= 0 {
        None
    } else if free[k - 1].0 == n {
        Some(k - 1)
    } else {
        last_free(free, n, k - 1)
    }
}

/// A buffer of `n` elements of four bytes: none for no elements, else one that is free again,
/// else a new one.
pub open spec fn scratch_plan(p: Plan, n: int) -> (Plan, Option<usize>) {
    match p {
        Plan::Broken => (Plan::Broken, None),
        Plan::Going { next, free, cmds } => if n == 0 {
            (p, None)
        } else {
            match last_free(free, n, free.len() as int) {
                Some(k) => (
                    Plan::Going { next, free: free.remove(k), cmds },
                    Some(free[k].1),
                ),
                None => if 4 * n > usize::MAX || next == usize::MAX {
                    (Plan::Broken, None)
                } else {
                    (
                        Plan::Going {
                            next: (next + 1) as usize,
                            free,
                            cmds: cmds.push(Cmd::Alloc { buf: next, len: n as usize }),
                        },
                        Some(next),
                    )
                },
            }
        },
    }
}

/// A tensor of these dimensions.
pub open spec fn dt_plan(p: Plan, c: int, h: int, w: int) -> (Plan, DTensor) {
    let (q, buf) = scratch_plan(
        provided(
            p,
            c <= usize::MAX && h <= usize::MAX && w <= usize::MAX && h * w <= usize::MAX && c * (h
                * w) <= usize::MAX,
        ),
        c * (h * w),
    );
    (q, made(q, DTensor { c: c as usize, h: h as usize, w: w as usize, buf }))
}

/// A buffer with elements from the host.
pub open spec fn upload_plan(p: Plan, source: Source<Seq<u8>, Seq<char>>, n: int) -> (
    Plan,
    Option<usize>,
) {
    match p {
        Plan::Broken => (Plan::Broken, None),
        Plan::Going { next, free, cmds } => if n == 0 {
            (p, None)
        } else if 4 * n > usize::MAX || next == usize::MAX {
            (Plan::Broken, None)
        } else {
            (
                Plan::Going {
                    next: (next + 1) as usize,
                    free,
                    cmds: cmds.push(Cmd::Upload { buf: next, len: n as usize, source }),
                },
                Some(next),
            )
        },
    }
}

/// A kernel over a grid.
pub open spec fn launch_plan(p: Plan, kernel: Kernel, shape: Shape, args: Seq<Arg>) -> Plan {
    with_cmd(p, Cmd::Launch { kernel, shape, args })
}

/// A launch over `n` elements.
pub open spec fn over(n: int) -> Shape {
    Shape { grid: (grid_of(n), 1, 1), block: (256, 1, 1), shared: 0 }
}

/// A kernel with a thread for each of `n` elements.
pub open spec fn launch_over_plan(p: Plan, kernel: Kernel, n: int, args: Seq<Arg>) -> Plan {
    launch_plan(provided(p, n + 255 <= usize::MAX), kernel, over(n), args)
}

/// The plan with nothing in it.
pub open spec fn start_plan() -> Plan {
    Plan::Going { next: 0, free: Seq::empty(), cmds: Seq::empty() }
}

impl CudaModel {
    /// A plan with nothing in it.
    pub fn new() -> (r: CudaModel)
        ensures
            r@ == start_plan(),
            r.weights@.len() == 0,
    {
        let r = CudaModel {
            weights: Vec::new(),
            next: 0,
            broken: false,
            free: Vec::new(),
            cmds: Vec::new(),
        };
        assert(acts(r.cmds@) =~= Seq::<Cmd<Seq<Arg>, Seq<u8>, Seq<char>>>::empty());
        assert(r.free@ =~= Seq::<(usize, usize)>::empty());
        r
    }

    fn act(&mut self, c: Cmd<Vec<Arg>, Vec<u8>, String>)
        ensures
            final(self)@ == with_cmd(old(self)@, c@),
            final(self).weights == old(self).weights,
    {
        let ghost was = self.cmds@;
        let ghost a = c@;
        self.cmds.push(c);
        assert(acts(self.cmds@) =~= acts(was).push(a));
    }

    /// Breaks the plan where the condition does not hold.
    pub fn must(&mut self, ok: bool)
        ensures
            final(self)@ == provided(old(self)@, ok),
            final(self).weights == old(self).weights,
    {
        if !ok {
            self.broken = true;
        }
    }

    /// The product of two sizes, which is to fit.
    pub fn times(&mut self, a: usize, b: usize) -> (r: usize)
        ensures
            final(self)@ == provided(old(self)@, a * b <= usize::MAX),
            a * b <= usize::MAX ==> r == a * b,
            final(self).weights == old(self).weights,
    {
        match a.checked_mul(b) {
            Some(n) => n,
            None => {
                self.broken = true;
                0
            },
        }
    }

    /// The tensor, none where the plan is broken.
    pub fn done(&self, t: DTensor) -> (r: DTensor)
        ensures
            r == made(self@, t),
    {
        if self.broken {
            DTensor { c: 0, h: 0, w: 0, buf: None }
        } else {
            t
        }
    }

    /// A buffer of `n` elements.
    pub fn scratch(&mut self, n: usize) -> (r: Option<usize>)
        ensures
            (final(self)@, r) == scratch_plan(old(self)@, n as int),
            final(self).weights == old(self).weights,
    {
        if self.broken || n == 0 {
            return None;
        }
        let mut k: usize = self.free.len();
        while k > 0
            invariant
                self.weights == old(self).weights,
                k <= self.free@.len(),
                last_free(self.free@, n as int, self.free@.len() as int) == last_free(
                    self.free@,
                    n as int,
                    k as int,
                ),
                !self.broken,
                n != 0,
                *self == *old(self),
            decreases k,
        {
            if self.free[k - 1].0 == n {
                let (len, buf) = self.free.remove(k - 1);
                return Some(buf);
            }
            k -= 1;
        }
        if n > usize::MAX / 4 || self.next == usize::MAX {
            self.broken = true;
            return None;
        }
        let buf = self.next;
        self.next = buf + 1;
        self.act(Cmd::Alloc { buf, len: n });
        Some(buf)
    }

    /// Gives a buffer of `n` elements back, where nothing else holds it.
    pub fn give_back(&mut self, buf: usize, n: usize, sole: bool)
        ensures
            final(self)@ == (match old(self)@ {
                Plan::Broken => Plan::Broken,
                Plan::Going { next, free, cmds } => if sole && n > 0 {
                    Plan::Going { next, free: free.push((n, buf)), cmds }
                } else {
                    old(self)@
                },
            }),
            final(self).weights == old(self).weights,
    {
        if sole && n > 0 {
            self.free.push((n, buf));
        }
    }

    /// A tensor of these dimensions.
    pub fn dt(&mut self, c: usize, h: usize, w: usize) -> (r: DTensor)
        ensures
            (final(self)@, r) == dt_plan(old(self)@, c as int, h as int, w as int),
            final(self).weights == old(self).weights,
    {
        let hw = self.times(h, w);
        proof {
            if h * w <= usize::MAX {
                assert(c * hw == c * (h * w));
            }
        }
        let n = self.times(c, hw);
        let buf = self.scratch(n);
        self.done(DTensor { c, h, w, buf })
    }

    /// A buffer with elements from the host.
    pub fn upload(&mut self, source: Source<Vec<u8>, String>, n: usize) -> (r: Option<usize>)
        ensures
            (final(self)@, r) == upload_plan(old(self)@, source@, n as int),
            final(self).weights == old(self).weights,
    {
        if self.broken || n == 0 {
            return None;
        }
        if n > usize::MAX / 4 || self.next == usize::MAX {
            self.broken = true;
            return None;
        }
        let buf = self.next;
        self.next = buf + 1;
        self.act(Cmd::Upload { buf, len: n, source });
        Some(buf)
    }

    /// A kernel over a grid.
    pub fn launch(&mut self, kernel: Kernel, shape: Shape, args: Vec<Arg>)
        ensures
            final(self)@ == launch_plan(old(self)@, kernel, shape, args@),
            final(self).weights == old(self).weights,
    {
        self.act(Cmd::Launch { kernel, shape, args });
    }

    /// A kernel with a thread for each of `n` elements.
    pub fn launch_over(&mut self, kernel: Kernel, n: usize, args: Vec<Arg>)
        ensures
            final(self)@ == launch_over_plan(old(self)@, kernel, n as int, args@),
            final(self).weights == old(self).weights,
    {
        if n > usize::MAX - 255 {
            self.broken = true;
        } else {
            let shape = Shape { grid: (grid_for(n), 1, 1), block: (THREADS, 1, 1), shared: 0 };
            self.launch(kernel, shape, args);
        }
    }

    /// A tensor that is to be written, where it is asked for.
    pub fn dump_named(&mut self, dump: &crate::dump::Dump, name: &str, t: &DTensor)
        ensures
            final(self)@ == dump_plan(old(self)@, dump@, name@, *t),
            final(self).weights == old(self).weights,
    {
        if dump.wants(name) {
            self.act(Cmd::Save { name: String::from_str(name), t: *t });
        }
    }

    /// A part of the backbone that is to be written, where there is a directory and the part is
    /// asked for by name.
    pub fn dump_part(&mut self, dump: &crate::dump::Dump, name: &str, t: &DTensor)
        ensures
            final(self)@ == part_plan(old(self)@, dump@, name@, *t),
            final(self).weights == old(self).weights,
    {
        if dump.wants_part(name) {
            self.act(Cmd::Save { name: String::from_str(name), t: *t });
        }
    }
}

/// A part of the backbone that is written, where there is a directory and the part is asked for
/// by name.
pub open spec fn part_plan(p: Plan, dump: crate::dump::Wish, name: Seq<char>, t: DTensor) -> Plan {
    if dump.parts().contains(name) {
        with_cmd(p, Cmd::Save { name, t })
    } else {
        p
    }
}

/// A tensor that is written, where it is asked for.
pub open spec fn dump_plan(p: Plan, dump: crate::dump::Wish, name: Seq<char>, t: DTensor) -> Plan {
    if dump.asks_for(name) {
        with_cmd(p, Cmd::Save { name, t })
    } else {
        p
    }
}

// ---- laws of planning -----------------------------------------------------------------

/// No two free buffers are the same, and every one of them is known.
pub open spec fn tidy(p: Plan) -> bool {
    match p {
        Plan::Broken => true,
        Plan::Going { next, free, cmds } => {
            &&& forall|i: int| 0 <= i < free.len() ==> (#[trigger] free[i]).1 < next
            &&& forall|i: int, j: int|
                0 <= i < j < free.len() ==> (#[trigger] free[i]).1 != (#[trigger] free[j]).1
        },
    }
}

/// A buffer is free.
pub open spec fn is_free(p: Plan, buf: usize) -> bool {
    match p {
        Plan::Broken => false,
        Plan::Going { next, free, cmds } => exists|i: int|
            0 <= i < free.len() && (#[trigger] free[i]).1 == buf,
    }
}

proof fn lemma_last_free(free: Seq<(usize, usize)>, n: int, k: int)
    requires
        0 <= k <= free.len(),
    ensures
        match last_free(free, n, k) {
            Some(i) => 0 <= i < k && free[i].0 == n,
            None => true,
        },
    decreases k,
{
    if k > 0 {
        lemma_last_free(free, n, k - 1);
    }
}

/// A buffer that is handed out is no longer free, and the other free buffers stay as they
/// are: no two tensors that are in use at a time share a buffer.
pub proof fn lemma_scratch_is_taken(p: Plan, n: int)
    requires
        tidy(p),
    ensures
        tidy(scratch_plan(p, n).0),
        scratch_plan(p, n).1 matches Some(b) ==> !is_free(scratch_plan(p, n).0, b),
{
    if let Plan::Going { next, free, cmds } = p {
        lemma_last_free(free, n, free.len() as int);
        if n != 0 {
            if let Some(k) = last_free(free, n, free.len() as int) {
                let left = free.remove(k);
                assert forall|i: int| 0 <= i < left.len() implies (#[trigger] left[i]).1 < next
                    && left[i].1 != free[k].1 by {
                    if i < k {
                        assert(left[i] == free[i]);
                    } else {
                        assert(left[i] == free[i + 1]);
                    }
                }
                assert forall|i: int, j: int| 0 <= i < j < left.len() implies (
                #[trigger] left[i]).1 != (#[trigger] left[j]).1 by {
                    let a = if i < k {
                        i
                    } else {
                        i + 1
                    };
                    let b = if j < k {
                        j
                    } else {
                        j + 1
                    };
                    assert(left[i] == free[a] && left[j] == free[b]);
                }
            }
        }
    }
}

/// A buffer that was given back is the next one of its length to be handed out, and nothing
/// is allocated for it.
pub proof fn lemma_scratch_again(
    next: usize,
    free: Seq<(usize, usize)>,
    cmds: Seq<Cmd<Seq<Arg>, Seq<u8>, Seq<char>>>,
    buf: usize,
    n: usize,
)
    requires
        0 < n,
    ensures
        scratch_plan(Plan::Going { next, free: free.push((n, buf)), cmds }, n as int) == (
            Plan::Going { next, free, cmds },
            Some(buf),
        ),
{
    let more = free.push((n, buf));
    assert(more[more.len() - 1] == (n, buf));
    assert(more.remove(more.len() - 1) =~= free);
}

/// A tensor that is planned has the dimensions that were asked for, and a buffer unless it is
/// empty.
pub proof fn lemma_tensor_planned(p: Plan, c: int, h: int, w: int)
    requires
        0 <= c,
        0 <= h,
        0 <= w,
        dt_plan(p, c, h, w).0 is Going,
    ensures
        dt_plan(p, c, h, w).1.c == c,
        dt_plan(p, c, h, w).1.h == h,
        dt_plan(p, c, h, w).1.w == w,
        dt_plan(p, c, h, w).1.buf is None <==> c * (h * w) == 0,
{
}

/// What was planned stays planned: the commands of `p` come first among those of `q`.
#[verifier::opaque]
pub open spec fn extends(p: Plan, q: Plan) -> bool {
    match (p, q) {
        (Plan::Broken, _) => q is Broken,
        (Plan::Going { next, free, cmds }, Plan::Broken) => true,
        (
            Plan::Going { next, free, cmds },
            Plan::Going { next: later, free: left, cmds: more },
        ) => next <= later && cmds.len() <= more.len() && more.take(cmds.len() as int) == cmds,
    }
}

/// A plan extends itself.
pub proof fn lemma_extends_same(p: Plan)
    ensures
        extends(p, p),
{
    reveal(extends);
    if let Plan::Going { next, free, cmds } = p {
        assert(cmds.take(cmds.len() as int) =~= cmds);
    }
}

/// What extends an extension extends the first plan.
pub proof fn lemma_extends_further(p: Plan, q: Plan, r: Plan)
    requires
        extends(p, q),
        extends(q, r),
    ensures
        extends(p, r),
{
    reveal(extends);
    if let Plan::Going { next, free, cmds } = p {
        if let Plan::Going { next: n2, free: f2, cmds: c2 } = q {
            if let Plan::Going { next: n3, free: f3, cmds: c3 } = r {
                assert(c3.take(cmds.len() as int) =~= c2.take(cmds.len() as int));
            }
        }
    }
}

/// The primitives of planning only add to a plan.
pub proof fn lemma_primitives_extend(
    p: Plan,
    ok: bool,
    c: Cmd<Seq<Arg>, Seq<u8>, Seq<char>>,
    n: int,
    source: Source<Seq<u8>, Seq<char>>,
)
    ensures
        extends(p, provided(p, ok)),
        extends(p, with_cmd(p, c)),
        extends(p, scratch_plan(p, n).0),
        extends(p, upload_plan(p, source, n).0),
{
    reveal(extends);
    if let Plan::Going { next, free, cmds } = p {
        assert(cmds.take(cmds.len() as int) =~= cmds);
        assert(cmds.push(c).take(cmds.len() as int) =~= cmds);
        let a = Cmd::<Seq<Arg>, Seq<u8>, Seq<char>>::Alloc { buf: next, len: n as usize };
        assert(cmds.push(a).take(cmds.len() as int) =~= cmds);
        let u = Cmd::<Seq<Arg>, Seq<u8>, Seq<char>>::Upload { buf: next, len: n as usize, source };
        assert(cmds.push(u).take(cmds.len() as int) =~= cmds);
    }
}

/// The names under which tensors are written, in the order of the commands.
pub open spec fn saves(cmds: Seq<Cmd<Seq<Arg>, Seq<u8>, Seq<char>>>) -> Seq<Seq<char>>
    decreases cmds.len(),
{
    if cmds.len() == 0 {
        Seq::empty()
    } else {
        match cmds.last() {
            Cmd::Save { name, t } => saves(cmds.drop_last()).push(name),
            _ => saves(cmds.drop_last()),
        }
    }
}

/// The names under which the tensors of a plan are written, in order.
pub open spec fn saved(p: Plan) -> Seq<Seq<char>> {
    match p {
        Plan::Broken => Seq::empty(),
        Plan::Going { next, free, cmds } => saves(cmds),
    }
}

/// What is said of a plan.
pub enum Mark {
    /// It extends another plan.
    After(Plan),
    /// Unless it is broken, exactly these names are written in it, in this order.
    Saving(Seq<Seq<char>>),
}

/// What is said of a plan is true.
#[verifier::opaque]
pub open spec fn keeps(base: Mark, p: Plan) -> bool {
    match base {
        Mark::After(q) => extends(q, p),
        Mark::Saving(names) => p is Going ==> saved(p) == names,
    }
}

/// A plan extends itself.
pub broadcast proof fn lemma_same_keeps(p: Plan)
    ensures
        #[trigger] keeps(Mark::After(p), p),
{
    reveal(keeps);
    lemma_extends_same(p);
}

/// Of a broken plan everything is true.
pub broadcast proof fn lemma_broken_keeps(base: Mark)
    ensures
        #[trigger] keeps(base, Plan::Broken),
{
    reveal(keeps);
    reveal(extends);
}

proof fn lemma_saves_push(
    cmds: Seq<Cmd<Seq<Arg>, Seq<u8>, Seq<char>>>,
    c: Cmd<Seq<Arg>, Seq<u8>, Seq<char>>,
)
    ensures
        saves(cmds.push(c)) == (match c {
            Cmd::Save { name, t } => saves(cmds).push(name),
            _ => saves(cmds),
        }),
{
    assert(cmds.push(c).drop_last() =~= cmds);
}

/// What is said of a plan stays true under a condition.
pub broadcast proof fn lemma_provided_keeps(base: Mark, p: Plan, ok: bool)
    requires
        keeps(base, p),
    ensures
        #[trigger] keeps(base, provided(p, ok)),
{
    if !ok {
        lemma_broken_keeps(base);
    }
}

/// What is said of a plan stays true with a command behind it. A command that writes changes
/// what is written.
pub broadcast proof fn lemma_cmd_keeps(
    base: Mark,
    p: Plan,
    c: Cmd<Seq<Arg>, Seq<u8>, Seq<char>>,
)
    requires
        keeps(base, p),
        base is After || c !is Save,
    ensures
        #[trigger] keeps(base, with_cmd(p, c)),
{
    reveal(keeps);
    match base {
        Mark::After(b) => {
            lemma_primitives_extend(p, true, c, 0, Source::Input);
            lemma_extends_further(b, p, with_cmd(p, c));
        },
        Mark::Saving(names) => {
            if let Plan::Going { next, free, cmds } = p {
                lemma_saves_push(cmds, c);
            }
        },
    }
}

/// What is said of a plan stays true with a tensor behind it.
pub broadcast proof fn lemma_dt_keeps(base: Mark, p: Plan, c: int, h: int, w: int)
    requires
        keeps(base, p),
    ensures
        #[trigger] keeps(base, dt_plan(p, c, h, w).0),
{
    let ok = c <= usize::MAX && h <= usize::MAX && w <= usize::MAX && h * w <= usize::MAX && c * (h
        * w) <= usize::MAX;
    let q = provided(p, ok);
    let n = c * (h * w);
    lemma_provided_keeps(base, p, ok);
    reveal(keeps);
    match base {
        Mark::After(b) => {
            let none = Cmd::<Seq<Arg>, Seq<u8>, Seq<char>>::Alloc { buf: 0, len: 0 };
            lemma_primitives_extend(q, true, none, n, Source::Input);
            lemma_extends_further(b, q, scratch_plan(q, n).0);
        },
        Mark::Saving(names) => {
            if let Plan::Going { next, free, cmds } = q {
                lemma_saves_push(cmds, Cmd::Alloc { buf: next, len: n as usize });
            }
        },
    }
}

/// What is said of a plan stays true with an upload behind it.
pub broadcast proof fn lemma_upload_keeps(
    base: Mark,
    p: Plan,
    source: Source<Seq<u8>, Seq<char>>,
    n: int,
)
    requires
        keeps(base, p),
    ensures
        #[trigger] keeps(base, upload_plan(p, source, n).0),
{
    reveal(keeps);
    match base {
        Mark::After(b) => {
            let none = Cmd::<Seq<Arg>, Seq<u8>, Seq<char>>::Alloc { buf: 0, len: 0 };
            lemma_primitives_extend(p, true, none, n, source);
            lemma_extends_further(b, p, upload_plan(p, source, n).0);
        },
        Mark::Saving(names) => {
            if let Plan::Going { next, free, cmds } = p {
                lemma_saves_push(cmds, Cmd::Upload { buf: next, len: n as usize, source });
            }
        },
    }
}

/// What is said of a plan stays true with the primitives of planning behind it.
pub broadcast group group_keeps {
    lemma_same_keeps,
    lemma_broken_keeps,
    lemma_provided_keeps,
    lemma_cmd_keeps,
    lemma_dt_keeps,
    lemma_upload_keeps,
}

/// The name, where the tensor of this name is asked for.
pub open spec fn wanted(dump: crate::dump::Wish, name: Seq<char>) -> Seq<Seq<char>> {
    if dump.asks_for(name) {
        seq![name]
    } else {
        Seq::empty()
    }
}

/// The name, where the part of the backbone of this name is asked for.
pub open spec fn wanted_part(dump: crate::dump::Wish, name: Seq<char>) -> Seq<Seq<char>> {
    if dump.parts().contains(name) {
        seq![name]
    } else {
        Seq::empty()
    }
}

/// A tensor that is asked for is written, and no other.
pub proof fn lemma_dump_saves(
    names: Seq<Seq<char>>,
    p: Plan,
    dump: crate::dump::Wish,
    name: Seq<char>,
    t: DTensor,
)
    requires
        keeps(Mark::Saving(names), p),
    ensures
        keeps(Mark::Saving(names + wanted(dump, name)), dump_plan(p, dump, name, t)),
{
    reveal(keeps);
    if let Plan::Going { next, free, cmds } = p {
        lemma_saves_push(cmds, Cmd::Save { name, t });
        assert(names + Seq::<Seq<char>>::empty() =~= names);
        assert(names + seq![name] =~= names.push(name));
    }
}

/// A part of the backbone that is asked for is written, and no other.
pub proof fn lemma_part_saves(
    names: Seq<Seq<char>>,
    p: Plan,
    dump: crate::dump::Wish,
    name: Seq<char>,
    t: DTensor,
)
    requires
        keeps(Mark::Saving(names), p),
    ensures
        keeps(Mark::Saving(names + wanted_part(dump, name)), part_plan(p, dump, name, t)),
{
    reveal(keeps);
    if let Plan::Going { next, free, cmds } = p {
        lemma_saves_push(cmds, Cmd::Save { name, t });
        assert(names + Seq::<Seq<char>>::empty() =~= names);
        assert(names + seq![name] =~= names.push(name));
    }
}

} // verus!
