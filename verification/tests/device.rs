use rmbg::cuda::{
    grid_for, kernels, module_of, resolve_kernels, row_threads, Arg, Cmd, CudaModel, DTensor, Home,
    Kernel, Source, DW,
};
use rmbg::cuda_forward::CudaNet;
use rmbg::cuda_graph::{CudaAttn, CudaLayerNorm, CudaLinear, CudaMlp, CudaSwinBlock};
use rmbg::dump::Dump;
use rmbg::scalar::Scalar;
use rmbg::selftest::{selftest, Bench, Rng};
use rmbg::weights::{Blob, Weights, WeightsError};

#[derive(Clone, Copy, Debug, PartialEq)]
struct F(f32);

impl Scalar for F {
    fn from_bits(bits: u32) -> Self {
        F(f32::from_bits(bits))
    }
    fn to_bits(self) -> u32 {
        self.0.to_bits()
    }
    fn from_usize(n: usize) -> Self {
        F(n as f32)
    }
    fn from_i64(n: i64) -> Self {
        F(n as f32)
    }
    fn plus(self, other: Self) -> Self {
        F(self.0 + other.0)
    }
    fn minus(self, other: Self) -> Self {
        F(self.0 - other.0)
    }
    fn times(self, other: Self) -> Self {
        F(self.0 * other.0)
    }
    fn over(self, other: Self) -> Self {
        F(self.0 / other.0)
    }
    fn negated(self) -> Self {
        F(-self.0)
    }
    fn magnitude(self) -> Self {
        F(self.0.abs())
    }
    fn exponential(self) -> Self {
        F(self.0.exp())
    }
    fn square_root(self) -> Self {
        F(self.0.sqrt())
    }
    fn power(self, exponent: Self) -> Self {
        F(self.0.powf(exponent.0))
    }
    fn larger(self, other: Self) -> Self {
        F(self.0.max(other.0))
    }
    fn rounded_down(self) -> Self {
        F(self.0.floor())
    }
    fn rounded(self) -> Self {
        F(self.0.round())
    }
    fn less(self, other: Self) -> bool {
        self.0 < other.0
    }
    fn same(self, other: Self) -> bool {
        self.0 == other.0
    }
    fn to_usize(self) -> usize {
        self.0 as usize
    }
    fn to_isize(self) -> isize {
        self.0 as isize
    }
    fn to_u8(self) -> u8 {
        self.0 as u8
    }
}

type Command = Cmd<Vec<Arg>, Vec<u8>, String>;

fn launch(c: &Command) -> (Kernel, (u32, u32, u32), (u32, u32, u32), u32, Vec<Arg>) {
    match c {
        Cmd::Launch { kernel, shape, args } => {
            (*kernel, shape.grid, shape.block, shape.shared, args.clone())
        }
        _ => panic!("no launch"),
    }
}

fn kernels_of(m: &CudaModel) -> Vec<Kernel> {
    m.cmds
        .iter()
        .filter_map(|c| match c {
            Cmd::Launch { kernel, .. } => Some(*kernel),
            _ => None,
        })
        .collect()
}

fn dw(buf: usize, shape: &[usize]) -> DW {
    DW { buf: Some(buf), shape: shape.to_vec() }
}

fn dt(c: usize, h: usize, w: usize, buf: usize) -> DTensor {
    DTensor { c, h, w, buf: Some(buf) }
}

#[test]
fn every_kernel_has_its_own_name() {
    let all = kernels();
    assert_eq!(all.len(), 33);
    let mut names: Vec<&str> = all.iter().map(|k| k.name()).collect();
    assert_eq!(names[0], "lg_add");
    assert_eq!(names[32], "lg_add_crop_tokens");
    names.sort();
    names.dedup();
    assert_eq!(names.len(), 33);
}

#[test]
fn grids_cover_their_elements() {
    assert_eq!(grid_for(0), 0);
    assert_eq!(grid_for(1), 1);
    assert_eq!(grid_for(256), 1);
    assert_eq!(grid_for(257), 2);
    assert_eq!(row_threads(0), 1);
    assert_eq!(row_threads(13), 16);
    assert_eq!(row_threads(192), 256);
    assert_eq!(row_threads(1536), 1024);
}

#[test]
fn relu_is_planned() {
    let mut m = CudaModel::new();
    let buf = m.upload(Source::Input, 300);
    let x = DTensor { c: 3, h: 10, w: 10, buf };
    let y = m.relu(&x);
    assert_eq!(y, dt(3, 10, 10, 1));
    assert_eq!(m.cmds.len(), 3);
    assert!(matches!(m.cmds[0], Cmd::Upload { buf: 0, len: 300, source: Source::Input }));
    assert!(matches!(m.cmds[1], Cmd::Alloc { buf: 1, len: 300 }));
    assert_eq!(
        launch(&m.cmds[2]),
        (
            Kernel::Relu,
            (2, 1, 1),
            (256, 1, 1),
            0,
            vec![Arg::Ptr(Some(0)), Arg::Ptr(Some(1)), Arg::Long(300)]
        )
    );
}

#[test]
fn convolutions_pick_their_kernel() {
    let mut m = CudaModel::new();
    let x = dt(16, 8, 8, 90);
    let b = dw(92, &[4]);
    let y = m.conv(&x, &dw(91, &[4, 16, 3, 3]), Some(&b), 3, false);
    assert_eq!((y.c, y.h, y.w), (4, 8, 8));
    assert_eq!(
        launch(&m.cmds[1]).4,
        vec![
            Arg::Ptr(Some(90)),
            Arg::Ptr(Some(91)),
            Arg::Ptr(Some(92)),
            Arg::Ptr(Some(0)),
            Arg::Int(16),
            Arg::Int(4),
            Arg::Int(8),
            Arg::Int(8),
            Arg::Int(3)
        ]
    );
    m.conv(&x, &dw(91, &[4, 16]), None, 1, false);
    m.conv(&x, &dw(91, &[4, 16, 7, 7]), None, 7, false);
    let y = m.conv(&x, &dw(91, &[4, 16, 4, 4]), None, 4, true);
    assert_eq!((y.h, y.w), (2, 2));
    assert_eq!(
        kernels_of(&m),
        vec![Kernel::Conv3x3, Kernel::Conv1x1, Kernel::ConvKxk, Kernel::Conv4x4]
    );
    assert_eq!(launch(&m.cmds[3]).4[2], Arg::Ptr(None));
}

#[test]
fn norms_and_linear_maps_have_their_shapes() {
    let mut m = CudaModel::new();
    let x = dt(192, 1, 33, 90);
    m.layernorm(&x, &dw(1, &[192]), &dw(2, &[192]), 7);
    let l = launch(&m.cmds[1]);
    assert_eq!((l.0, l.1, l.2), (Kernel::LayerNorm, (33, 1, 1), (256, 1, 1)));
    assert_eq!(l.4[6], Arg::Bits(7));
    let y = m.linear(&x, &dw(3, &[100, 192]), None, 33);
    assert_eq!((y.c, y.h, y.w), (100, 1, 33));
    let l = launch(&m.cmds[3]);
    assert_eq!((l.1, l.2), ((7, 3, 1), (16, 16, 1)));
    let g = m.global_avg_pool(&x);
    assert_eq!((g.c, g.h, g.w), (192, 1, 1));
    assert_eq!(launch(&m.cmds[5]).1, (192, 1, 1));
}

#[test]
fn parts_are_copied_one_behind_the_other() {
    let mut m = CudaModel::new();
    let y = m.cat(&vec![dt(3, 4, 5, 90), dt(7, 4, 5, 91)]);
    assert_eq!((y.c, y.h, y.w), (10, 4, 5));
    assert_eq!(launch(&m.cmds[1]).4[3], Arg::Int(0));
    assert_eq!(launch(&m.cmds[2]).4[3], Arg::Int(3));
    let mut m = CudaModel::new();
    m.cat(&vec![]);
    assert!(m.broken);
}

#[test]
fn buffers_are_used_again() {
    let mut m = CudaModel::new();
    assert_eq!(m.scratch(8), Some(0));
    assert_eq!(m.scratch(0), None);
    m.give_back(0, 8, false);
    assert_eq!(m.scratch(8), Some(1));
    m.give_back(0, 8, true);
    m.give_back(1, 8, true);
    assert_eq!(m.scratch(9), Some(2));
    assert_eq!(m.scratch(8), Some(1));
    assert_eq!(m.scratch(8), Some(0));
    assert_eq!(m.scratch(8), Some(3));
    assert_eq!(m.cmds.len(), 4);
}

#[test]
fn too_large_a_plan_is_broken() {
    let mut m = CudaModel::new();
    let x = dt(usize::MAX, 2, 2, 90);
    let y = m.relu(&x);
    assert!(m.broken);
    assert_eq!(y, DTensor { c: 0, h: 0, w: 0, buf: None });
    let mut m = CudaModel::new();
    m.conv(&dt(1, 1, 1, 0), &dw(1, &[1]), None, 1, false);
    assert!(m.broken);
    let mut m = CudaModel::new();
    m.tile_patches(&dt(1, 1, 1, 0), 0, 1);
    assert!(m.broken);
}

fn map(buf: usize, ic: usize, oc: usize) -> CudaLinear {
    CudaLinear { w: dw(buf, &[oc, ic]), b: None }
}

#[test]
fn block_is_planned() {
    let ln = CudaLayerNorm { w: dw(1, &[2]), b: dw(2, &[2]) };
    let attn = CudaAttn {
        qkv: map(3, 2, 6),
        proj: map(4, 2, 2),
        bias_table: dw(5, &[1]),
        index: dw(6, &[20736]),
        heads: 1,
        dim: 2,
    };
    let mlp = CudaMlp { fc1: map(7, 2, 8), fc2: map(8, 8, 2) };
    let x = dt(2, 1, 15, 90);
    let mut m = CudaModel::new();
    let blk = CudaSwinBlock { shift: 6, hd: 2 };
    let d = Dump { dir: Some(String::from("d")), steps: vec![String::from("n_wins")] };
    let y = m.swin_block(&blk, &attn, &ln, &ln, &mlp, &x, 3, 5, Some(77), Some((&d, "n")));
    assert!(!m.broken);
    assert_eq!((y.c, y.h, y.w), (2, 1, 15));
    assert_eq!(
        kernels_of(&m),
        vec![
            Kernel::LayerNorm,
            Kernel::PadTokens,
            Kernel::RollTokens,
            Kernel::WindowGather,
            Kernel::Linear,
            Kernel::RepackAttn,
            Kernel::AttnScores,
            Kernel::SoftmaxRows,
            Kernel::AttnApply,
            Kernel::Linear,
            Kernel::WindowScatter,
            Kernel::RollTokens,
            Kernel::AddCropTokens,
            Kernel::LayerNorm,
            Kernel::Linear,
            Kernel::GeluErf,
            Kernel::Linear,
            Kernel::Add,
        ]
    );
    let scores = m.cmds.iter().find(|c| {
        matches!(c, Cmd::Launch { kernel: Kernel::AttnScores, .. })
    });
    let l = launch(scores.unwrap());
    assert_eq!(l.1, (81, 1, 1));
    assert_eq!(l.4[3], Arg::Ptr(Some(77)));
    assert_eq!(l.4[8], Arg::InverseRoot(2));
    let saved: Vec<&String> = m
        .cmds
        .iter()
        .filter_map(|c| match c {
            Cmd::Save { name, .. } => Some(name),
            _ => None,
        })
        .collect();
    assert_eq!(saved, vec!["n_wins"]);
    let mut m = CudaModel::new();
    let blk = CudaSwinBlock { shift: 0, hd: 2 };
    m.swin_block(&blk, &attn, &ln, &ln, &mlp, &x, 3, 5, None, None);
    assert_eq!(kernels_of(&m).iter().filter(|k| **k == Kernel::RollTokens).count(), 0);
}

#[test]
fn random_numbers_are_the_same_in_every_run() {
    let mut r = Rng::new(12345);
    assert_eq!(r.0, 12345u64.wrapping_mul(6364136223846793005).wrapping_add(1));
    let a: Vec<F> = r.vec(5);
    let mut r = Rng::new(12345);
    let b: Vec<F> = r.vec(2);
    let c: Vec<F> = r.vec(3);
    assert_eq!(a[..2], b[..]);
    assert_eq!(a[2..], c[..]);
    assert!(a.iter().all(|v| -1.0 <= v.0 && v.0 <= 1.0));
    let mut s = 1u64;
    s = s.wrapping_mul(6364136223846793005).wrapping_add(1442695040888963407);
    let first: F = Rng(1).next();
    assert_eq!(first.0, ((s >> 33) as u32) as f32 / (u32::MAX >> 1) as f32 * 2.0 - 1.0);
}

#[test]
fn device_is_tested_on_every_operation() {
    let b: Bench<F> = selftest();
    assert!(!b.m.broken);
    let names: Vec<&str> = b.cases.iter().map(|c| c.name.as_str()).collect();
    assert_eq!(
        names,
        vec![
            "copy",
            "relu",
            "sigmoid",
            "gelu",
            "affine",
            "conv1x1",
            "conv3x3",
            "conv7x7",
            "conv4x4s4",
            "layernorm C=16",
            "layernorm C=13",
            "global_avg_pool",
            "layernorm C=192",
            "linear 37x24->32",
            "linear 37x192->100",
            "linear 29x768->3072",
            "tile_patches 5x7->3x2",
            "tile_patches 32x32->12x7",
            "cat_channels",
            "resize (align=F)",
            "resize (align=T)",
            "deform k=1 pad=0",
            "deform k=3 pad=1",
            "deform k=7 pad=3",
        ]
    );
    for c in b.cases.iter() {
        assert_eq!(c.want.len(), c.got.len());
    }
    assert_eq!(b.cases[0].want, b.given[0]);
    assert_eq!(b.given.len(), 47);
}

fn add(names: &mut Vec<(String, Vec<usize>)>, name: &str, shape: &[usize]) {
    names.push((String::from(name), shape.to_vec()));
}

fn add_bn(names: &mut Vec<(String, Vec<usize>)>, p: &str, n: usize) {
    for part in ["weight", "bias", "running_mean", "running_var"] {
        add(names, &format!("{}.{}", p, part), &[n]);
    }
}

fn add_block(names: &mut Vec<(String, Vec<usize>)>, p: &str, ic: usize, oc: usize) {
    add(names, &format!("{}.conv_in.weight", p), &[1, ic, 3, 3]);
    add(names, &format!("{}.conv_in.bias", p), &[1]);
    add_bn(names, &format!("{}.bn_in", p), 1);
    let a = format!("{}.dec_att", p);
    for (part, k) in [("aspp1", 1), ("aspp_deforms.0", 1), ("aspp_deforms.1", 3), ("aspp_deforms.2", 7)] {
        let b = format!("{}.{}", a, part);
        add(names, &format!("{}.atrous_conv.offset_conv.weight", b), &[2 * k * k, 1, k, k]);
        add(names, &format!("{}.atrous_conv.offset_conv.bias", b), &[2 * k * k]);
        add(names, &format!("{}.atrous_conv.modulator_conv.weight", b), &[k * k, 1, k, k]);
        add(names, &format!("{}.atrous_conv.modulator_conv.bias", b), &[k * k]);
        add(names, &format!("{}.atrous_conv.regular_conv.weight", b), &[1, 1, k, k]);
        add_bn(names, &format!("{}.bn", b), 1);
    }
    add(names, &format!("{}.global_avg_pool.1.weight", a), &[1, 1, 1, 1]);
    add_bn(names, &format!("{}.global_avg_pool.2", a), 1);
    add(names, &format!("{}.conv1.weight", a), &[1, 5, 1, 1]);
    add_bn(names, &format!("{}.bn1", a), 1);
    add(names, &format!("{}.conv_out.weight", p), &[oc, 1, 3, 3]);
    add(names, &format!("{}.conv_out.bias", p), &[oc]);
    add_bn(names, &format!("{}.bn_out", p), oc);
}

/// Every name of the network, with small shapes.
fn small_names() -> Vec<(String, Vec<usize>)> {
    let mut n = Vec::new();
    add(&mut n, "bb.patch_embed.proj.weight", &[192, 3, 4, 4]);
    add(&mut n, "bb.patch_embed.proj.bias", &[192]);
    add(&mut n, "bb.patch_embed.norm.weight", &[192]);
    add(&mut n, "bb.patch_embed.norm.bias", &[192]);
    for s in 0..4 {
        let dim = [192, 384, 768, 1536][s];
        add(&mut n, &format!("bb.norm{}.weight", s), &[dim]);
        add(&mut n, &format!("bb.norm{}.bias", s), &[dim]);
        for b in 0..[2, 2, 18, 2][s] {
            let p = format!("bb.layers.{}.blocks.{}", s, b);
            for part in ["norm1", "norm2"] {
                add(&mut n, &format!("{}.{}.weight", p, part), &[dim]);
                add(&mut n, &format!("{}.{}.bias", p, part), &[dim]);
            }
            add(&mut n, &format!("{}.attn.qkv.weight", p), &[3, 1]);
            add(&mut n, &format!("{}.attn.qkv.bias", p), &[3]);
            add(&mut n, &format!("{}.attn.proj.weight", p), &[dim, 1]);
            add(&mut n, &format!("{}.attn.relative_position_bias_table", p), &[1]);
            add(&mut n, &format!("{}.attn.relative_position_index", p), &[1]);
            add(&mut n, &format!("{}.mlp.fc1.weight", p), &[1, 1]);
            add(&mut n, &format!("{}.mlp.fc2.weight", p), &[1, 1]);
        }
        if s < 3 {
            let p = format!("bb.layers.{}.downsample", s);
            add(&mut n, &format!("{}.norm.weight", p), &[4]);
            add(&mut n, &format!("{}.norm.bias", p), &[4]);
            add(&mut n, &format!("{}.reduction.weight", p), &[2 * dim, 1]);
        }
    }
    add_block(&mut n, "squeeze_module.0", 1, 2);
    for k in 1..6 {
        let p = format!("decoder.ipt_blk{}", k);
        add(&mut n, &format!("{}.conv1.weight", p), &[64, 1, 3, 3]);
        add(&mut n, &format!("{}.conv1.bias", p), &[64]);
        add(&mut n, &format!("{}.conv_out.weight", p), &[1, 64, 3, 3]);
        add(&mut n, &format!("{}.conv_out.bias", p), &[1]);
    }
    for k in 1..5 {
        add_block(&mut n, &format!("decoder.decoder_block{}", k), 1, 2);
    }
    for k in 2..5 {
        add(&mut n, &format!("decoder.lateral_block{}.conv.weight", k), &[2, 1, 1, 1]);
        add(&mut n, &format!("decoder.lateral_block{}.conv.bias", k), &[2]);
        add(&mut n, &format!("decoder.conv_ms_spvn_{}.weight", k), &[1, 2, 1, 1]);
        add(&mut n, &format!("decoder.conv_ms_spvn_{}.bias", k), &[1]);
        add(&mut n, &format!("decoder.gdt_convs_{}.0.weight", k), &[16, 2, 3, 3]);
        add(&mut n, &format!("decoder.gdt_convs_{}.0.bias", k), &[16]);
        add_bn(&mut n, &format!("decoder.gdt_convs_{}.1", k), 16);
        add(&mut n, &format!("decoder.gdt_convs_attn_{}.0.weight", k), &[1, 16, 1, 1]);
        add(&mut n, &format!("decoder.gdt_convs_attn_{}.0.bias", k), &[1]);
    }
    add(&mut n, "decoder.conv_out1.0.weight", &[1, 3, 1, 1]);
    add(&mut n, "decoder.conv_out1.0.bias", &[1]);
    n
}

fn file(names: &[(String, Vec<usize>)]) -> Vec<u8> {
    let mut head = String::from("{");
    let mut at = 0;
    for (i, (name, shape)) in names.iter().enumerate() {
        let n: usize = shape.iter().product();
        let comma = if i == 0 { "" } else { "," };
        head += &format!(
            "{}\"{}\":{{\"dtype\":\"F32\",\"shape\":{:?},\"data_offsets\":[{},{}]}}",
            comma,
            name,
            shape,
            at,
            at + 4 * n
        );
        at += 4 * n;
    }
    head += "}";
    while head.len() % 8 != 0 {
        head.push(' ');
    }
    let mut f = (head.len() as u64).to_le_bytes().to_vec();
    f.extend_from_slice(head.as_bytes());
    f.resize(f.len() + at, 0);
    f
}

fn load(names: &[(String, Vec<usize>)]) -> Result<CudaNet, String> {
    let f = file(names);
    let w = Weights::open(Blob::new(&f)).ok().unwrap();
    CudaNet::load(&w).map_err(|e: WeightsError| String::from_utf8(e.message()).unwrap())
}

#[test]
fn network_is_loaded_and_planned() {
    let names = small_names();
    let mut net = load(&names).ok().unwrap();
    assert!(!net.m.broken);
    assert_eq!(net.w.stages.len(), 4);
    assert_eq!(net.w.stages[2].blocks.len(), 18);
    assert_eq!(net.w.stages[2].blocks[1], CudaSwinBlock { shift: 6, hd: 32 });
    assert!(net.w.stages[0].attn[0].qkv.b.is_some());
    assert!(net.w.stages[0].attn[0].proj.b.is_none());
    let loaded = net.m.cmds.len();
    let folded = 5 * 2 * (2 + 4 + 2) + 3 * 2;
    assert_eq!(loaded, names.len() + folded);
    assert!(net.m.cmds.iter().all(|c| matches!(c, Cmd::Upload { .. })));
    match &net.m.cmds[0] {
        Cmd::Upload { buf, len, source: Source::Weight(n) } => {
            assert_eq!((*buf, *len, n.as_slice()), (0, 192, &b"bb.layers.0.blocks.0.attn.proj.weight"[..]));
        }
        _ => panic!("no weight"),
    }
    let first = format!("{:?}", net.m.cmds[loaded - 1]);
    let d = Dump { dir: Some(String::from("d")), steps: vec![String::from("pred3"), String::from("full_blocks_2_5")] };
    let y = net.forward(3, 64, 96, &d);
    assert!(!net.m.broken);
    assert_eq!((y.c, y.h, y.w), (1, 64, 96));
    assert_eq!(format!("{:?}", net.m.cmds[loaded - 1]), first);
    assert!(matches!(net.m.cmds[loaded], Cmd::Upload { len: 18432, source: Source::Input, .. }));
    let saved: Vec<&str> = net
        .m
        .cmds
        .iter()
        .filter_map(|c| match c {
            Cmd::Save { name, .. } => Some(name.as_str()),
            _ => None,
        })
        .collect();
    assert_eq!(saved, vec!["full_blocks_2_5", "pred3"]);
    let masks = net.m.cmds.iter().filter(|c| {
        matches!(c, Cmd::Upload { source: Source::Mask { .. }, .. })
    });
    assert_eq!(masks.count(), 8);
}

#[test]
fn missing_weights_are_named() {
    let names: Vec<(String, Vec<usize>)> = small_names()
        .into_iter()
        .filter(|(n, _)| n != "bb.layers.2.blocks.17.mlp.fc2.weight")
        .collect();
    assert_eq!(load(&names).err().unwrap(), "missing tensor bb.layers.2.blocks.17.mlp.fc2.weight");
    let mut names = small_names();
    for (n, s) in names.iter_mut() {
        if n == "decoder.gdt_convs_3.1.bias" {
            *s = vec![2];
        }
    }
    assert_eq!(load(&names).err().unwrap(), "decoder.gdt_convs_3.1.bias: too few numbers");
    let mut names = small_names();
    for (n, s) in names.iter_mut() {
        if n == "decoder.ipt_blk2.conv1.weight" {
            *s = vec![576];
        }
    }
    assert_eq!(load(&names).err().unwrap(), "decoder.ipt_blk2.conv1.weight: too few dimensions");
}

#[test]
fn every_kernel_is_resolved_before_a_launch() {
    let n = kernels().len();
    assert_eq!(module_of(true, true), Some(Home::Swin));
    assert_eq!(module_of(false, true), Some(Home::Toolkit));
    assert_eq!(module_of(false, false), None);
    let mut swin = vec![false; n];
    let mut toolkit = vec![true; n];
    swin[7] = true;
    toolkit[7] = false;
    assert_eq!(resolve_kernels(&swin, &toolkit), Ok(()));
    toolkit[5] = false;
    toolkit[9] = false;
    assert_eq!(resolve_kernels(&swin, &toolkit), Err(Kernel::Conv4x4));
}

#[test]
fn crop_of_tokens_covers_what_is_kept() {
    let mut m = CudaModel::new();
    let x = m.dt(7, 1, 100);
    let grid = m.dt(7, 1, 144);
    let out = m.dt(7, 1, 100);
    m.add_crop_tokens(&x, &grid, &out, 10, 10, 12, 12);
    match m.cmds.last().unwrap() {
        Cmd::Launch { kernel, shape, args } => {
            assert_eq!(*kernel, Kernel::AddCropTokens);
            assert_eq!(shape.grid, (3, 1, 1));
            assert_eq!(args.len(), 8);
            assert!(matches!(args[2], Arg::Ptr(Some(2))));
            assert!(matches!(args[7], Arg::Int(7)));
        }
        _ => panic!("no launch"),
    }
}

#[test]
fn device_writes_what_the_processor_writes() {
    let mut net = load(&small_names()).ok().unwrap();
    let d = Dump { dir: Some(String::from("d")), steps: vec![] };
    net.forward(3, 64, 64, &d);
    assert!(!net.m.broken);
    let saved: Vec<&str> = net
        .m
        .cmds
        .iter()
        .filter_map(|c| match c {
            Cmd::Save { name, .. } => Some(name.as_str()),
            _ => None,
        })
        .collect();
    assert_eq!(
        saved,
        vec![
            "input",
            "full_patch_embed_norm",
            "half_input",
            "norm_input",
            "half_patch_embed_norm",
            "bb_stage0",
            "bb_stage1",
            "bb_stage2",
            "bb_stage3",
            "cxt_x4",
            "squeeze_module",
            "ipt_blk5",
            "decoder_block4",
            "ipt_blk4",
            "decoder_block3",
            "ipt_blk3",
            "decoder_block2",
            "ipt_blk2",
            "decoder_block1",
            "ipt_blk1",
            "conv_out1",
            "pred0",
            "pred1",
            "pred2",
            "pred3",
        ]
    );
    let mut net = load(&small_names()).ok().unwrap();
    let d = Dump {
        dir: Some(String::from("d")),
        steps: vec![String::from("half_downsample_1"), String::from("full_0_b1_norm1")],
    };
    net.forward(3, 64, 64, &d);
    let saved: Vec<String> = net
        .m
        .cmds
        .iter()
        .filter_map(|c| match c {
            Cmd::Save { name, .. } => Some(name.clone()),
            _ => None,
        })
        .collect();
    assert_eq!(saved, vec![String::from("half_downsample_1")]);
}

#[test]
fn device_writes_nothing_without_a_directory() {
    let mut net = load(&small_names()).ok().unwrap();
    let d = Dump {
        dir: None,
        steps: vec![String::from("half_downsample_1"), String::from("pred0")],
    };
    net.forward(3, 64, 64, &d);
    assert!(!net.m.broken);
    assert!(!net.m.cmds.iter().any(|c| matches!(c, Cmd::Save { .. })));
}

fn rolls(m: &CudaModel) -> Vec<Arg> {
    m.cmds
        .iter()
        .filter(|c| matches!(c, Cmd::Launch { kernel: Kernel::RollTokens, .. }))
        .map(|c| launch(c).4[4])
        .collect()
}

#[test]
fn a_roll_is_undone_on_rows_and_columns() {
    let ln = CudaLayerNorm { w: dw(1, &[2]), b: dw(2, &[2]) };
    let attn = CudaAttn {
        qkv: map(3, 2, 6),
        proj: map(4, 2, 2),
        bias_table: dw(5, &[1]),
        index: dw(6, &[20736]),
        heads: 1,
        dim: 2,
    };
    let mlp = CudaMlp { fc1: map(7, 2, 8), fc2: map(8, 8, 2) };
    let blk = CudaSwinBlock { shift: 6, hd: 2 };
    for (h, w, back) in [(36, 36, 30), (12, 24, 282), (24, 12, 18), (24, 36, 858)] {
        let mut m = CudaModel::new();
        let x = dt(2, 1, h * w, 90);
        m.swin_block(&blk, &attn, &ln, &ln, &mlp, &x, h, w, Some(77), None);
        assert!(!m.broken);
        assert_eq!(rolls(&m), vec![Arg::Int(6), Arg::Int(back)]);
        assert_eq!((6 + back) % h, 0);
        assert_eq!((6 + back) % w, 0);
    }
}
