use rmbg::conv::{conv1x1, conv4x4_stride4, conv_kxk};
use rmbg::deform::deform_conv2d;
use rmbg::layout::{cat_channels, cat_two, get_patches_batch, nchw_to_tokens, tokens_to_nchw};
use rmbg::pointwise::{
    add_inplace, apply_affine_inplace, erf, gelu_exact_inplace, global_avg_pool, layernorm_inplace,
    layernorm_slice, mul_broadcast_channel_inplace, relu_inplace, sigmoid_inplace, sum,
};
use rmbg::resize::resize_bilinear;
use rmbg::scalar::Scalar;
use rmbg::tensor::Tensor;

#[derive(Clone, Copy, Debug, PartialEq)]
struct F(f32);

impl Scalar for F {
    fn from_bits(bits: u32) -> Self {
        F(f32::from_bits(bits))
    }
    fn to_bits(self) -> u32 {
        self.0.to_bits()
    }
    fn from_usize(n: usize) -> Self {
        F(n as f32)
    }
    fn from_i64(n: i64) -> Self {
        F(n as f32)
    }
    fn plus(self, other: Self) -> Self {
        F(self.0 + other.0)
    }
    fn minus(self, other: Self) -> Self {
        F(self.0 - other.0)
    }
    fn times(self, other: Self) -> Self {
        F(self.0 * other.0)
    }
    fn over(self, other: Self) -> Self {
        F(self.0 / other.0)
    }
    fn negated(self) -> Self {
        F(-self.0)
    }
    fn magnitude(self) -> Self {
        F(self.0.abs())
    }
    fn exponential(self) -> Self {
        F(self.0.exp())
    }
    fn square_root(self) -> Self {
        F(self.0.sqrt())
    }
    fn power(self, exponent: Self) -> Self {
        F(self.0.powf(exponent.0))
    }
    fn larger(self, other: Self) -> Self {
        F(self.0.max(other.0))
    }
    fn rounded_down(self) -> Self {
        F(self.0.floor())
    }
    fn rounded(self) -> Self {
        F(self.0.round())
    }
    fn less(self, other: Self) -> bool {
        self.0 < other.0
    }
    fn same(self, other: Self) -> bool {
        self.0 == other.0
    }
    fn to_usize(self) -> usize {
        self.0 as usize
    }
    fn to_isize(self) -> isize {
        self.0 as isize
    }
    fn to_u8(self) -> u8 {
        self.0 as u8
    }
}

fn fs(v: &[f32]) -> Vec<F> {
    v.iter().map(|x| F(*x)).collect()
}

fn tensor(c: usize, h: usize, w: usize, v: &[f32]) -> Tensor<F> {
    Tensor::from_vec(c, h, w, fs(v))
}

fn plain(v: &[F]) -> Vec<f32> {
    v.iter().map(|x| x.0).collect()
}

fn near(a: &[F], b: &[f32], tol: f32) -> bool {
    a.len() == b.len() && a.iter().zip(b).all(|(x, y)| (x.0 - y).abs() <= tol)
}

#[test]
fn plane_size() {
    let t: Tensor<u8> = Tensor::from_vec(1, 2, 3, vec![0, 1, 2, 3, 4, 5]);
    assert_eq!(t.hw(), 6);
}

#[test]
fn new_tensor_is_zero() {
    let t: Tensor<F> = Tensor::new(2, 1, 2);
    assert_eq!(plain(&t.data), vec![0.0, 0.0, 0.0, 0.0]);
    assert_eq!((t.c, t.h, t.w), (2, 1, 2));
}

#[test]
fn conv1x1_mixes_channels() {
    let x = tensor(2, 1, 2, &[1.0, 2.0, 3.0, 4.0]);
    let w = fs(&[1.0, 10.0, 2.0, 0.0]);
    let y = conv1x1(&x, &w, 2, 2, Some(&fs(&[100.0, 200.0])));
    assert_eq!(plain(&y.data), vec![131.0, 142.0, 202.0, 204.0]);
    assert_eq!((y.c, y.h, y.w), (2, 1, 2));
}

#[test]
fn conv1x1_without_bias() {
    let x = tensor(1, 1, 3, &[1.0, -2.0, 3.0]);
    let y = conv1x1(&x, &fs(&[2.0]), 1, 1, None);
    assert_eq!(plain(&y.data), vec![2.0, -4.0, 6.0]);
}

#[test]
fn conv_of_ones_counts_neighbours() {
    let x = tensor(1, 3, 3, &[1.0; 9]);
    let y = conv_kxk(&x, &fs(&[1.0; 9]), 1, 1, 3, Some(&fs(&[0.5])));
    assert_eq!(plain(&y.data), vec![4.5, 6.5, 4.5, 6.5, 9.5, 6.5, 4.5, 6.5, 4.5]);
}

#[test]
fn conv_kernel_is_not_flipped() {
    let x = tensor(1, 1, 3, &[1.0, 2.0, 3.0]);
    let w = fs(&[0.0, 0.0, 0.0, 1.0, 0.0, 0.0, 0.0, 0.0, 0.0]);
    let y = conv_kxk(&x, &w, 1, 1, 3, None);
    assert_eq!(plain(&y.data), vec![0.0, 1.0, 2.0]);
}

#[test]
fn patch_embedding_sums_squares() {
    let x = tensor(1, 4, 8, &(0..32).map(|i| i as f32).collect::<Vec<f32>>());
    let y = conv4x4_stride4(&x, &fs(&[1.0; 16]), 1, 1, Some(&fs(&[1.0])));
    assert_eq!((y.c, y.h, y.w), (1, 1, 2));
    assert_eq!(plain(&y.data), vec![217.0, 281.0]);
}

#[test]
fn patch_embedding_drops_what_is_left_over() {
    let x = tensor(1, 5, 4, &[1.0; 20]);
    let y = conv4x4_stride4(&x, &fs(&[1.0; 16]), 1, 1, None);
    assert_eq!((y.c, y.h, y.w), (1, 1, 1));
    assert_eq!(plain(&y.data), vec![16.0]);
}

#[test]
fn sum_goes_from_the_front() {
    assert_eq!(sum(&fs(&[1.0, 2.0, 3.5])).0, 6.5);
    assert_eq!(sum(&fs(&[])).0, 0.0);
}

#[test]
fn layernorm_of_equal_numbers_is_the_bias() {
    let mut d = fs(&[3.0, 3.0, 5.0, 5.0]);
    layernorm_slice(&mut d, 2, &fs(&[7.0, 8.0]), &fs(&[1.0, 2.0]), F(1e-5));
    assert_eq!(plain(&d), vec![1.0, 2.0, 1.0, 2.0]);
}

#[test]
fn layernorm_of_two_numbers() {
    let mut d = fs(&[1.0, 3.0]);
    layernorm_inplace(&mut d, 1, 2, &fs(&[1.0, 2.0]), &fs(&[0.0, 0.5]), F(0.0));
    assert!(near(&d, &[-1.0, 2.5], 1e-6));
}

#[test]
fn layernorm_leaves_what_is_no_complete_row() {
    let mut d = fs(&[1.0, 1.0, 9.0]);
    layernorm_slice(&mut d, 2, &fs(&[1.0, 1.0]), &fs(&[4.0, 4.0]), F(1e-5));
    assert_eq!(plain(&d), vec![4.0, 4.0, 9.0]);
}

#[test]
fn affine_by_channel() {
    let mut x = tensor(2, 1, 2, &[1.0, 2.0, 3.0, 4.0]);
    apply_affine_inplace(&mut x, &fs(&[2.0, 3.0]), &fs(&[0.5, -1.0]));
    assert_eq!(plain(&x.data), vec![2.5, 4.5, 8.0, 11.0]);
}

#[test]
fn relu_cuts_below_zero() {
    let mut x = tensor(1, 1, 3, &[-1.0, 0.0, 2.0]);
    relu_inplace(&mut x);
    assert_eq!(plain(&x.data), vec![0.0, 0.0, 2.0]);
}

#[test]
fn sigmoid_values() {
    let mut x = tensor(1, 1, 3, &[0.0, 100.0, -100.0]);
    sigmoid_inplace(&mut x);
    assert_eq!(x.data[0].0, 0.5);
    assert_eq!(x.data[1].0, 1.0);
    assert!(x.data[2].0 < 1e-30);
}

#[test]
fn erf_and_gelu_values() {
    assert!((erf(F(1.0)).0 - 0.842_700_8).abs() < 1e-6);
    assert!((erf(F(-1.0)).0 + 0.842_700_8).abs() < 1e-6);
    let mut x = tensor(1, 1, 3, &[0.0, 1.0, -1.0]);
    gelu_exact_inplace(&mut x);
    assert_eq!(x.data[0].0, 0.0);
    assert!((x.data[1].0 - 0.841_344_7).abs() < 1e-5);
    assert!((x.data[2].0 + 0.158_655_3).abs() < 1e-5);
}

#[test]
fn erf_is_odd() {
    for v in [0.001f32, 0.3, 1.0, 2.5, 40.0, f32::INFINITY] {
        assert_eq!(erf(F(-v)).0.to_bits(), (-erf(F(v)).0).to_bits());
    }
    assert_eq!(erf(F(-0.0)).0.to_bits(), erf(F(0.0)).0.to_bits());
}

#[test]
fn adding_and_weighing() {
    let mut x = tensor(2, 1, 2, &[1.0, 2.0, 3.0, 4.0]);
    add_inplace(&mut x, &tensor(2, 1, 2, &[10.0, 20.0, 30.0, 40.0]));
    assert_eq!(plain(&x.data), vec![11.0, 22.0, 33.0, 44.0]);
    mul_broadcast_channel_inplace(&mut x, &tensor(1, 1, 2, &[2.0, 0.5]));
    assert_eq!(plain(&x.data), vec![22.0, 11.0, 66.0, 22.0]);
}

#[test]
fn pooling_takes_the_mean_of_each_plane() {
    let x = tensor(2, 2, 2, &[1.0, 2.0, 3.0, 4.0, 0.0, 0.0, 0.0, 8.0]);
    assert_eq!(plain(&global_avg_pool(&x)), vec![2.5, 2.0]);
}

#[test]
fn resize_with_aligned_corners() {
    let x = tensor(1, 2, 2, &[0.0, 2.0, 4.0, 6.0]);
    let y = resize_bilinear(&x, 3, 3, true);
    assert_eq!(plain(&y.data), vec![0.0, 1.0, 2.0, 2.0, 3.0, 4.0, 4.0, 5.0, 6.0]);
}

#[test]
fn resize_without_aligned_corners() {
    let x = tensor(1, 1, 2, &[0.0, 4.0]);
    let y = resize_bilinear(&x, 1, 4, false);
    assert_eq!(plain(&y.data), vec![0.0, 1.0, 3.0, 4.0]);
}

#[test]
fn resize_to_the_same_size_keeps_the_image() {
    let x = tensor(2, 2, 2, &[1.0, 2.0, 3.0, 4.0, 5.0, 6.0, 7.0, 8.0]);
    assert_eq!(plain(&resize_bilinear(&x, 2, 2, true).data), plain(&x.data));
    assert_eq!(plain(&resize_bilinear(&x, 2, 2, false).data), plain(&x.data));
}

#[test]
fn resize_to_one_position_takes_the_corner_or_the_middle() {
    let x = tensor(1, 1, 3, &[1.0, 5.0, 9.0]);
    assert_eq!(plain(&resize_bilinear(&x, 1, 1, true).data), vec![1.0]);
    assert_eq!(plain(&resize_bilinear(&x, 1, 1, false).data), vec![5.0]);
}

#[test]
fn deform_without_offsets_is_a_convolution() {
    let x = tensor(2, 3, 4, &(0..24).map(|i| (i * i % 7) as f32).collect::<Vec<f32>>());
    let w: Vec<f32> = (0..36).map(|i| (i % 5) as f32 - 2.0).collect();
    let off: Tensor<F> = Tensor::new(18, 3, 4);
    let mask = tensor(9, 3, 4, &[1.0; 108]);
    let a = deform_conv2d(&x, &off, &mask, &fs(&w), 2, 3, 1);
    let b = conv_kxk(&x, &fs(&w), 2, 2, 3, None);
    assert_eq!(plain(&a.data), plain(&b.data));
}

#[test]
fn deform_moves_and_weighs_points() {
    let x = tensor(1, 1, 3, &[1.0, 2.0, 4.0]);
    let off = tensor(2, 1, 3, &[0.0, 0.0, 0.0, 0.5, 1.0, 9.0]);
    let mask = tensor(1, 1, 3, &[1.0, 3.0, 1.0]);
    let y = deform_conv2d(&x, &off, &mask, &fs(&[2.0]), 1, 1, 0);
    assert_eq!(plain(&y.data), vec![3.0, 24.0, 0.0]);
}

#[test]
fn concatenation_keeps_the_order() {
    let a = tensor(1, 1, 2, &[1.0, 2.0]);
    let b = tensor(2, 1, 2, &[3.0, 4.0, 5.0, 6.0]);
    let y = cat_channels(&[&a, &b]);
    assert_eq!((y.c, y.h, y.w), (3, 1, 2));
    assert_eq!(plain(&y.data), vec![1.0, 2.0, 3.0, 4.0, 5.0, 6.0]);
    assert_eq!(plain(&cat_two(&b, &a).data), vec![3.0, 4.0, 5.0, 6.0, 1.0, 2.0]);
}

#[test]
fn tiles_go_by_columns_first() {
    let x = tensor(1, 2, 2, &[1.0, 2.0, 3.0, 4.0]);
    let y = get_patches_batch(&x, 1, 1);
    assert_eq!((y.c, y.h, y.w), (4, 1, 1));
    assert_eq!(plain(&y.data), vec![1.0, 3.0, 2.0, 4.0]);
}

#[test]
fn tiles_are_filled_up_with_zero() {
    let x = tensor(1, 1, 3, &[1.0, 2.0, 3.0]);
    let y = get_patches_batch(&x, 2, 2);
    assert_eq!((y.c, y.h, y.w), (2, 2, 2));
    assert_eq!(plain(&y.data), vec![1.0, 2.0, 0.0, 0.0, 3.0, 0.0, 0.0, 0.0]);
}

#[test]
fn one_tile_is_the_image() {
    let x = tensor(2, 1, 2, &[1.0, 2.0, 3.0, 4.0]);
    assert_eq!(plain(&get_patches_batch(&x, 1, 2).data), plain(&x.data));
}

#[test]
fn tokens_and_planes_are_inverse() {
    let x = tensor(3, 2, 2, &(0..12).map(|i| i as f32).collect::<Vec<f32>>());
    let t = nchw_to_tokens(&x);
    assert_eq!(
        plain(&t),
        vec![0.0, 4.0, 8.0, 1.0, 5.0, 9.0, 2.0, 6.0, 10.0, 3.0, 7.0, 11.0]
    );
    assert_eq!(plain(&tokens_to_nchw(&t, 3, 2, 2).data), plain(&x.data));
}
