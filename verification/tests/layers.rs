use rmbg::attention::{softmax, WindowAttention};
use rmbg::dump::Record;
use rmbg::linear::{LayerNorm, Linear, Mlp};
use rmbg::mask::{build_mask, slice_bounds};
use rmbg::scalar::Scalar;
use rmbg::swin::{padded, BlockDump, SwinBlock, SwinStage};
use rmbg::windows::{half_up, move_rows, Move};

#[derive(Clone, Copy, Debug, PartialEq)]
struct F(f32);

impl Scalar for F {
    fn from_bits(bits: u32) -> Self {
        F(f32::from_bits(bits))
    }
    fn to_bits(self) -> u32 {
        self.0.to_bits()
    }
    fn from_usize(n: usize) -> Self {
        F(n as f32)
    }
    fn from_i64(n: i64) -> Self {
        F(n as f32)
    }
    fn plus(self, other: Self) -> Self {
        F(self.0 + other.0)
    }
    fn minus(self, other: Self) -> Self {
        F(self.0 - other.0)
    }
    fn times(self, other: Self) -> Self {
        F(self.0 * other.0)
    }
    fn over(self, other: Self) -> Self {
        F(self.0 / other.0)
    }
    fn negated(self) -> Self {
        F(-self.0)
    }
    fn magnitude(self) -> Self {
        F(self.0.abs())
    }
    fn exponential(self) -> Self {
        F(self.0.exp())
    }
    fn square_root(self) -> Self {
        F(self.0.sqrt())
    }
    fn power(self, exponent: Self) -> Self {
        F(self.0.powf(exponent.0))
    }
    fn larger(self, other: Self) -> Self {
        F(self.0.max(other.0))
    }
    fn rounded_down(self) -> Self {
        F(self.0.floor())
    }
    fn rounded(self) -> Self {
        F(self.0.round())
    }
    fn less(self, other: Self) -> bool {
        self.0 < other.0
    }
    fn same(self, other: Self) -> bool {
        self.0 == other.0
    }
    fn to_usize(self) -> usize {
        self.0 as usize
    }
    fn to_isize(self) -> isize {
        self.0 as isize
    }
    fn to_u8(self) -> u8 {
        self.0 as u8
    }
}

fn fs(v: &[f32]) -> Vec<F> {
    v.iter().map(|x| F(*x)).collect()
}

fn plain(v: &[F]) -> Vec<f32> {
    v.iter().map(|x| x.0).collect()
}

fn near(a: &[F], b: &[f32], tol: f32) -> bool {
    a.len() == b.len() && a.iter().zip(b).all(|(x, y)| (x.0 - y).abs() <= tol)
}

fn linear(ic: usize, oc: usize, w: f32, b: &[f32]) -> Linear<F> {
    Linear { w: vec![F(w); ic * oc], b: Some(fs(b)), ic, oc }
}

fn norm(c: usize) -> LayerNorm<F> {
    LayerNorm { w: vec![F(1.0); c], b: vec![F(0.0); c] }
}

/// Attention over two features in which every value is the same.
fn attention() -> WindowAttention<F> {
    WindowAttention {
        qkv: linear(2, 6, 0.0, &[0.0, 0.0, 0.0, 0.0, 3.0, 4.0]),
        proj: Linear { w: fs(&[1.0, 0.0, 0.0, 1.0]), b: None, ic: 2, oc: 2 },
        bias_table: fs(&[0.0]),
        index: vec![0; 20736],
        heads: 1,
        dim: 2,
        scale: F(1.0),
    }
}

#[test]
fn linear_maps_rows() {
    let l = Linear { w: fs(&[1.0, 2.0, 3.0, 4.0]), b: Some(fs(&[10.0, 20.0])), ic: 2, oc: 2 };
    assert_eq!(plain(&l.apply(&fs(&[1.0, 1.0, 0.0, 2.0]))), vec![13.0, 27.0, 14.0, 28.0]);
    assert!(l.is_fit(4));
    let l = Linear { w: fs(&[1.0]), b: None, ic: 2, oc: 2 };
    assert!(!l.is_fit(4));
    assert!(l.is_fit(1));
}

#[test]
fn perceptron_has_an_error_unit_in_between() {
    let m = Mlp {
        fc1: Linear { w: fs(&[1.0]), b: None, ic: 1, oc: 1 },
        fc2: Linear { w: fs(&[2.0]), b: Some(fs(&[0.5])), ic: 1, oc: 1 },
    };
    assert!(near(&m.apply(&fs(&[1.0])), &[2.0 * 0.841_344_7 + 0.5], 1e-5));
}

#[test]
fn softmax_adds_up_to_one() {
    let r = softmax(&fs(&[0.0, 0.0]));
    assert_eq!(plain(&r), vec![0.5, 0.5]);
    let r = softmax(&fs(&[1.0, 2.0, 3.0]));
    assert!(near(&r, &[0.090_030_57, 0.244_728_47, 0.665_240_96], 1e-6));
}

#[test]
fn attention_over_equal_values_gives_the_value() {
    let x = vec![F(0.25); 288];
    let y = attention().apply(&x, 1, None);
    assert_eq!(y.len(), 288);
    for r in 0..144 {
        assert!(near(&y[2 * r..2 * r + 2], &[3.0, 4.0], 1e-4));
    }
    let mask: Vec<F> = build_mask(12, 12);
    let y = attention().apply(&x, 1, Some(&mask));
    assert!(near(&y[0..2], &[3.0, 4.0], 1e-4));
}

#[test]
fn attention_stays_within_its_window() {
    let a = WindowAttention {
        qkv: Linear {
            w: (0..12).map(|i| F(0.1 * i as f32 - 0.5)).collect(),
            b: None,
            ic: 2,
            oc: 6,
        },
        ..attention()
    };
    let x: Vec<F> = (0..576).map(|i| F((i % 17) as f32 * 0.1)).collect();
    let mut y = x.clone();
    for v in y[..288].iter_mut() {
        v.0 = 1.0 - v.0;
    }
    let (p, q) = (a.apply(&x, 2, None), a.apply(&y, 2, None));
    assert_eq!(p.len(), 576);
    assert_eq!(p[288..], q[288..]);
    assert!(p[..288] != q[..288]);
}

#[test]
fn windows_are_cut_and_put_back() {
    let src: Vec<F> = (0..12 * 24).map(|i| F(i as f32)).collect();
    let cut = move_rows(&src, 1, 288, 288, Move::Split { wp: 24 });
    assert_eq!(cut[12].0, 24.0);
    assert_eq!(cut[144].0, 12.0);
    let back = move_rows(&cut, 1, 288, 288, Move::Merge { wp: 24 });
    assert_eq!(plain(&back), plain(&src));
}

#[test]
fn rolling_goes_round_and_back() {
    let src: Vec<F> = (0..6).map(|i| F(i as f32)).collect();
    let rolled = move_rows(&src, 1, 6, 6, Move::Roll { hp: 2, wp: 3, by: 1 });
    assert_eq!(plain(&rolled), vec![4.0, 5.0, 3.0, 1.0, 2.0, 0.0]);
    let back = move_rows(&rolled, 1, 6, 6, Move::Unroll { hp: 2, wp: 3, by: 1 });
    assert_eq!(plain(&back), plain(&src));
}

#[test]
fn padding_adds_zeros() {
    let src = fs(&[1.0, 2.0, 3.0, 4.0]);
    let p = move_rows(&src, 1, 4, 9, Move::Pad { h: 2, w: 2, wp: 3 });
    assert_eq!(plain(&p), vec![1.0, 2.0, 0.0, 3.0, 4.0, 0.0, 0.0, 0.0, 0.0]);
}

#[test]
fn squares_are_folded_by_columns() {
    let src = fs(&[1.0, 2.0, 3.0, 4.0, 5.0, 6.0]);
    let p = move_rows(&src, 1, 6, 8, Move::Fold { h: 2, w: 3 });
    assert_eq!(plain(&p), vec![1.0, 4.0, 2.0, 5.0, 3.0, 6.0, 0.0, 0.0]);
}

#[test]
fn sizes_are_rounded_up() {
    assert_eq!((padded(0), padded(1), padded(12), padded(13)), (0, 12, 12, 24));
    assert_eq!((half_up(0), half_up(3), half_up(4)), (0, 2, 2));
}

#[test]
fn bounds_of_slices() {
    assert_eq!(slice_bounds(-6, isize::MAX, 8), vec![2, 3, 4, 5, 6, 7]);
    assert_eq!(slice_bounds(0, -12, 14), vec![0, 1]);
    assert_eq!(slice_bounds(0, -12, 12), Vec::<usize>::new());
    assert_eq!(slice_bounds(-12, -6, 12), vec![0, 1, 2, 3, 4, 5]);
}

#[test]
fn mask_keeps_regions_apart() {
    let m: Vec<F> = build_mask(24, 24);
    assert_eq!(m.len(), 4 * 20736);
    assert!(m[..20736].iter().all(|v| v.0 == 0.0));
    let at = |w: usize, i: usize, j: usize| m[w * 20736 + i * 144 + j].0;
    assert_eq!(at(3, 0, 0), 0.0);
    assert_eq!(at(3, 0, 143), -100.0);
    assert_eq!(at(3, 143, 0), -100.0);
    assert_eq!(at(1, 5, 6), -100.0);
    assert_eq!(at(1, 0, 12), 0.0);
}

fn block(shift: usize) -> SwinBlock<F> {
    let mut attn = attention();
    attn.proj = linear(2, 2, 0.0, &[10.0, 20.0]);
    SwinBlock {
        norm1: norm(2),
        attn,
        norm2: norm(2),
        mlp: Mlp { fc1: linear(2, 1, 1.0, &[0.0]), fc2: linear(1, 2, 0.0, &[1.0, 2.0]) },
        shift,
    }
}

#[test]
fn block_adds_attention_and_perceptron() {
    let x = fs(&[1.0, 2.0, 3.0, 4.0, 5.0, 6.0]);
    let want = [12.0, 24.0, 14.0, 26.0, 16.0, 28.0];
    let b = block(0);
    assert!(b.is_fit(6, 1, 3, None));
    assert_eq!(plain(&b.apply(&x, 1, 3, None)), want);
    let b = block(6);
    let mask: Vec<F> = build_mask(12, 12);
    assert!(b.is_fit(6, 1, 3, Some(mask.len())));
    assert!(!b.is_fit(6, 1, 3, Some(7)));
    assert!(!b.is_fit(5, 1, 3, None));
    assert_eq!(plain(&b.apply(&x, 1, 3, Some(&mask))), want);
}

#[test]
fn stage_runs_blocks_and_steps_down() {
    let st = SwinStage {
        blocks: vec![block(0), block(6)],
        downsample_norm: Some(LayerNorm { w: vec![F(0.0); 8], b: vec![F(1.0); 8] }),
        downsample: Some(Linear { w: vec![F(0.5); 32], b: None, ic: 8, oc: 4 }),
    };
    let x = fs(&[1.0, 2.0, 3.0, 4.0, 5.0, 6.0]);
    assert_eq!(st.is_fit(6, 1, 3), Some(8));
    let bd = BlockDump {
        dir: String::from("d"),
        names: vec![String::from("full_blocks_2_1"), String::from("full_downsample_2")],
    };
    let mut log: Vec<Record<F>> = Vec::new();
    let (out, h, w, down, dh, dw) =
        st.apply_dbg(&x, 1, 3, 1, 2, Some((&bd, 0, "full", 2)), &mut log);
    assert_eq!((h, w, dh, dw), (1, 3, 1, 2));
    assert_eq!(plain(&out), vec![23.0, 46.0, 25.0, 48.0, 27.0, 50.0]);
    assert_eq!(plain(&down), vec![4.0; 8]);
    assert_eq!(log.len(), 2);
    assert_eq!(log[0].name, "full_blocks_2_1");
    assert_eq!(plain(&log[0].tensor.data), plain(&out));
    assert_eq!((log[1].name.as_str(), log[1].tensor.c), ("full_downsample_2", 4));
}

#[test]
fn last_stage_hands_nothing_on() {
    let st: SwinStage<F> =
        SwinStage { blocks: vec![], downsample_norm: None, downsample: None };
    let mut log: Vec<Record<F>> = Vec::new();
    let x = fs(&[1.0, 2.0]);
    let (out, _, _, down, _, _) = st.apply_dbg(&x, 1, 1, 1, 3, None, &mut log);
    assert_eq!(plain(&out), plain(&x));
    assert_eq!(plain(&down), plain(&x));
    assert!(log.is_empty());
}
