use rmbg::dump::Record;
use rmbg::engine::{forward_dump, ipt_input};
use rmbg::graph::{
    Affine, AsppBranch, AsppDeformable, BasicDecBlk, DeformConv, GdtConv, SimpleConvs,
};
use rmbg::linear::{LayerNorm, Linear};
use rmbg::model::{Decoder, Rmbg};
use rmbg::scalar::Scalar;
use rmbg::swin::{SwinStage, DIMS};
use rmbg::tensor::Tensor;

#[derive(Clone, Copy, Debug, PartialEq)]
struct F(f32);

impl Scalar for F {
    fn from_bits(bits: u32) -> Self {
        F(f32::from_bits(bits))
    }
    fn to_bits(self) -> u32 {
        self.0.to_bits()
    }
    fn from_usize(n: usize) -> Self {
        F(n as f32)
    }
    fn from_i64(n: i64) -> Self {
        F(n as f32)
    }
    fn plus(self, other: Self) -> Self {
        F(self.0 + other.0)
    }
    fn minus(self, other: Self) -> Self {
        F(self.0 - other.0)
    }
    fn times(self, other: Self) -> Self {
        F(self.0 * other.0)
    }
    fn over(self, other: Self) -> Self {
        F(self.0 / other.0)
    }
    fn negated(self) -> Self {
        F(-self.0)
    }
    fn magnitude(self) -> Self {
        F(self.0.abs())
    }
    fn exponential(self) -> Self {
        F(self.0.exp())
    }
    fn square_root(self) -> Self {
        F(self.0.sqrt())
    }
    fn power(self, exponent: Self) -> Self {
        F(self.0.powf(exponent.0))
    }
    fn larger(self, other: Self) -> Self {
        F(self.0.max(other.0))
    }
    fn rounded_down(self) -> Self {
        F(self.0.floor())
    }
    fn rounded(self) -> Self {
        F(self.0.round())
    }
    fn less(self, other: Self) -> bool {
        self.0 < other.0
    }
    fn same(self, other: Self) -> bool {
        self.0 == other.0
    }
    fn to_usize(self) -> usize {
        self.0 as usize
    }
    fn to_isize(self) -> isize {
        self.0 as isize
    }
    fn to_u8(self) -> u8 {
        self.0 as u8
    }
}

fn fs(v: &[f32]) -> Vec<F> {
    v.iter().map(|x| F(*x)).collect()
}

fn tensor(c: usize, h: usize, w: usize, v: &[f32]) -> Tensor<F> {
    Tensor::from_vec(c, h, w, fs(v))
}

fn plain(v: &[F]) -> Vec<f32> {
    v.iter().map(|x| x.0).collect()
}

fn near(a: &[F], b: &[f32], tol: f32) -> bool {
    a.len() == b.len() && a.iter().zip(b).all(|(x, y)| (x.0 - y).abs() <= tol)
}

fn zeros(n: usize) -> Vec<F> {
    vec![F(0.0); n]
}

fn affine(n: usize, shift: f32) -> Affine<F> {
    Affine { scale: vec![F(1.0); n], shift: vec![F(shift); n] }
}

fn deform() -> DeformConv<F> {
    DeformConv {
        offset_w: zeros(2),
        offset_b: zeros(2),
        modulator_w: zeros(1),
        modulator_b: zeros(1),
        regular_w: fs(&[1.0]),
        k: 1,
        pad: 0,
        ic: 1,
        oc: 1,
    }
}

fn pyramid() -> AsppDeformable<F> {
    AsppDeformable {
        aspp1: AsppBranch { conv: deform(), bn: affine(1, 0.0) },
        deforms: vec![],
        gap_conv_w: fs(&[1.0]),
        gap_bn: affine(1, 0.0),
        conv1_w: fs(&[1.0, 1.0]),
        bn1: affine(1, 0.0),
        oc: 1,
    }
}

fn block(ic: usize, oc: usize, shift: f32) -> BasicDecBlk<F> {
    BasicDecBlk {
        conv_in_w: zeros(ic * 9),
        conv_in_b: zeros(1),
        bn_in: affine(1, 0.0),
        aspp: pyramid(),
        conv_out_w: zeros(oc * 9),
        conv_out_b: zeros(oc),
        bn_out: affine(oc, shift),
        ic,
        ic_mid: 1,
        oc,
    }
}

fn side() -> SimpleConvs<F> {
    SimpleConvs { c1w: zeros(576), c1b: zeros(64), cow: zeros(576), cob: fs(&[0.0]), ic: 1, oc: 1 }
}

fn plane() -> GdtConv<F> {
    GdtConv {
        w: zeros(144),
        b: zeros(16),
        bn: affine(16, 0.0),
        attn_w: zeros(16),
        attn_b: zeros(1),
        ic: 1,
    }
}

fn stage(s: usize) -> SwinStage<F> {
    let dim = DIMS[s];
    if s == 3 {
        return SwinStage { blocks: vec![], downsample_norm: None, downsample: None };
    }
    SwinStage {
        blocks: vec![],
        downsample_norm: Some(LayerNorm { w: zeros(4 * dim), b: zeros(4 * dim) }),
        downsample: Some(Linear { w: zeros(8 * dim * dim), b: None, ic: 4 * dim, oc: 2 * dim }),
    }
}

fn network() -> Rmbg<F> {
    Rmbg {
        stages: (0..4).map(stage).collect(),
        pe_norm_w: zeros(192),
        pe_norm_b: zeros(192),
        proj_w: zeros(9216),
        proj_b: zeros(192),
        norm_w: DIMS.iter().map(|d| zeros(*d)).collect(),
        norm_b: DIMS.iter().map(|d| zeros(*d)).collect(),
        squeeze: block(5760, 2, 0.0),
        decoder: Decoder {
            ipt: vec![side(), side(), side(), side(), side()],
            blocks: vec![block(1, 1, 0.5), block(1, 384, 0.0), block(1, 768, 0.0), block(1, 1536, 0.0)],
            lat2: zeros(384 * 384),
            lat2b: zeros(384),
            lat3: zeros(768 * 768),
            lat3b: zeros(768),
            lat4: zeros(1536 * 1536),
            lat4b: zeros(1536),
            ms: vec![
                (zeros(1), fs(&[2.0])),
                (zeros(1), fs(&[3.0])),
                (zeros(1), fs(&[4.0])),
            ],
            conv_out1_w: fs(&[1.0, 1.0]),
            conv_out1_b: fs(&[0.25]),
            gdt: vec![plane(), plane(), plane()],
        },
    }
}

#[test]
fn network_says_what_it_fits() {
    let mut n = network();
    assert!(n.is_fit(3, 32, 32));
    assert!(n.is_fit(3, 1024, 1024));
    assert!(!n.is_fit(2, 32, 32));
    assert!(!n.is_fit(3, 0, 32));
    assert!(!n.is_fit(3, usize::MAX, 32));
    n.decoder.gdt.pop();
    assert!(!n.is_fit(3, 32, 32));
}

#[test]
fn small_network_is_run() {
    let n = network();
    let x = tensor(3, 32, 32, &vec![0.5; 3072]);
    let mut log: Vec<Record<F>> = Vec::new();
    let steps = vec![
        String::from("pred0"),
        String::from("pred2"),
        String::from("bb_stage3"),
        String::from("decoder_block1"),
        String::from("full_downsample_1"),
    ];
    let y = forward_dump(&n, &x, &Some(String::from("d")), &steps, &mut log);
    assert_eq!((y.c, y.h, y.w), (1, 32, 32));
    assert!(y.data.iter().all(|v| v.0 == 0.75));
    let names: Vec<&str> = log.iter().map(|r| r.name.as_str()).collect();
    assert_eq!(names, vec!["full_downsample_1", "bb_stage3", "decoder_block1", "pred0", "pred2"]);
    assert!(log.iter().all(|r| r.dir == "d"));
    assert_eq!((log[1].tensor.c, log[1].tensor.h), (3072, 1));
    assert!(log[3].tensor.data.iter().all(|v| v.0 == 4.0));
    assert!(log[4].tensor.data.iter().all(|v| v.0 == 2.0));
}

#[test]
fn everything_but_the_parts_is_written_without_steps() {
    let n = network();
    let x = tensor(3, 32, 32, &vec![0.5; 3072]);
    let mut log: Vec<Record<F>> = Vec::new();
    forward_dump(&n, &x, &Some(String::from("d")), &[], &mut log);
    let names: Vec<&str> = log.iter().map(|r| r.name.as_str()).collect();
    assert_eq!(
        names,
        vec![
            "input",
            "full_patch_embed_norm",
            "half_input",
            "norm_input",
            "half_patch_embed_norm",
            "bb_stage0",
            "bb_stage1",
            "bb_stage2",
            "bb_stage3",
            "cxt_x4",
            "squeeze_module",
            "ipt_blk5",
            "decoder_block4",
            "ipt_blk4",
            "decoder_block3",
            "ipt_blk3",
            "decoder_block2",
            "ipt_blk2",
            "decoder_block1",
            "ipt_blk1",
            "conv_out1",
            "pred0",
            "pred1",
            "pred2",
            "pred3",
        ]
    );
}

#[test]
fn nothing_is_written_unasked() {
    let n = network();
    let x = tensor(3, 32, 32, &vec![0.5; 3072]);
    let mut log: Vec<Record<F>> = Vec::new();
    forward_dump(&n, &x, &None, &[], &mut log);
    assert!(log.is_empty());
    let steps = vec![String::from("full_downsample_1"), String::from("pred0")];
    forward_dump(&n, &x, &None, &steps, &mut log);
    assert!(log.is_empty());
    forward_dump(&n, &x, &Some(String::from("d")), &steps, &mut log);
    let written: Vec<(&str, &str)> =
        log.iter().map(|r| (r.dir.as_str(), r.name.as_str())).collect();
    assert_eq!(written, vec![("d", "full_downsample_1"), ("d", "pred0")]);
}

#[test]
fn tiles_come_at_the_size_of_the_block() {
    let x = tensor(1, 2, 2, &[1.0, 2.0, 3.0, 4.0]);
    let y = ipt_input(&x, 1, 2);
    assert_eq!((y.c, y.h, y.w), (2, 1, 2));
    assert_eq!(plain(&y.data), vec![1.0, 2.0, 3.0, 4.0]);
}

#[test]
fn modulated_convolution_weighs_with_one() {
    let x = tensor(1, 1, 2, &[3.0, 5.0]);
    let c = deform();
    assert!(c.is_fit(1, 1, 2));
    assert_eq!(plain(&c.apply(&x).data), vec![3.0, 5.0]);
}

#[test]
fn pyramid_adds_the_mean() {
    let x = tensor(1, 1, 2, &[2.0, 4.0]);
    let p = pyramid();
    assert!(p.is_fit(1, 1, 2));
    assert!(!p.is_fit(0, 1, 2));
    assert_eq!(plain(&p.apply(&x).data), vec![5.0, 7.0]);
}

#[test]
fn attention_over_the_plane_is_a_sigmoid() {
    let g = plane();
    let y = g.apply(&tensor(1, 1, 2, &[1.0, 2.0]));
    assert_eq!(plain(&y.data), vec![0.5, 0.5]);
}

#[test]
fn two_convolutions_without_activation() {
    let mut s = side();
    s.c1w[4] = F(2.0);
    s.cow[4] = F(-3.0);
    s.cob = fs(&[1.0]);
    assert_eq!(plain(&s.apply(&tensor(1, 1, 2, &[1.0, 2.0])).data), vec![-5.0, -11.0]);
}
