//! What the device is tested on: an operation on random numbers, and what the same operation
//! gives on the host.

use crate::conv::{
    conv1x1, conv1x1_spec, conv4x4_stride4, conv4x4_stride4_spec, conv_kxk, conv_kxk_spec,
};
use crate::cuda::{start_plan, upload_plan, CudaModel, DTensor, Dw, Kernel, Plan, Source, DW};
use crate::cuda_ops::{
    affine_plan, cat_plan, conv_plan, deform_conv_plan, global_avg_pool_plan, layernorm_plan,
    linear_plan, resize_bilinear_plan, tile_patches_plan, unary_plan,
};
use crate::deform::{deform_conv2d, deform_spec};
use crate::graph::TWO;
use crate::index::lemma_split;
use crate::layout::{
    cat_spec, cat_two, get_patches_batch, patches_fits, patches_spec, steps,
};
use crate::linear::LN_EPS;
use crate::pointwise::{
    affine_spec, apply_affine_inplace, each, gelu_exact_inplace, gelu_of, global_avg_pool,
    layernorm_slice, layernorm_spec, pooled, relu_inplace, relu_of, sigmoid_inplace, sigmoid_of,
    HALF,
};
use crate::resize::{resize_bilinear, resize_spec};
use crate::scalar::{computes, Arith, Scalar, ONE};
use crate::tensor::{copied, dims_fit, Img, Tensor};
use crate::words::{number_string, number_text, numbered};
use vstd::prelude::*;
use vstd::string::StringExecFns;

verus! {

// ---- random numbers -------------------------------------------------------------------

/// A source of numbers between -1 and 1 that look random and are the same in every run.
#[derive(Debug)]
pub struct Rng(pub u64);

/// The state that a seed leads to.
pub open spec fn seeded(seed: u64) -> u64 {
    seed.wrapping_mul(6364136223846793005u64).wrapping_add(1u64)
}

/// The state behind another.
pub open spec fn stepped(s: u64) -> u64 {
    s.wrapping_mul(6364136223846793005u64).wrapping_add(1442695040888963407u64)
}

/// The state `n` steps behind another.
pub open spec fn steps_on(s: u64, n: int) -> u64
    decreases n,
{
    if n <= 0 {
        s
    } else {
        stepped(steps_on(s, n - 1))
    }
}

/// The number of a state: its highest 31 bits, as a part of their largest value, twice, less
/// one.
pub open spec fn number_of<T>(m: Arith<T>, s: u64) -> T {
    (m.minus)(
        (m.times)(
            (m.over)((m.of_i64)((s / 0x2_0000_0000) as i64), (m.of_i64)(0x7fff_ffff)),
            (m.bits)(TWO),
        ),
        m.one(),
    )
}

/// The next `n` numbers.
pub open spec fn numbers<T>(m: Arith<T>, s: u64, n: int) -> Seq<T> {
    Seq::new(n as nat, |i: int| number_of(m, steps_on(s, i + 1)))
}

impl Rng {
    /// The source that starts from a seed.
    pub fn new(seed: u64) -> (r: Rng)
        ensures
            r.0 == seeded(seed),
    {
        Rng(seed.wrapping_mul(6364136223846793005).wrapping_add(1))
    }

    /// The next number.
    pub fn next<T: Scalar>(&mut self) -> (r: T)
        ensures
            final(self).0 == stepped(old(self).0),
            forall|m: Arith<T>| #[trigger] computes(m) ==> r == number_of(m, final(self).0),
    {
        self.0 = self.0.wrapping_mul(6364136223846793005).wrapping_add(1442695040888963407);
        let s = self.0;
        assert(s >> 33 == s / 0x2_0000_0000) by (bit_vector);
        let v = T::from_i64((s >> 33) as i64).over(T::from_i64(0x7fff_ffff));
        v.times(T::from_bits(TWO)).minus(T::from_bits(ONE))
    }

    /// The next `n` numbers.
    pub fn vec<T: Scalar>(&mut self, n: usize) -> (r: Vec<T>)
        ensures
            r@.len() == n,
            final(self).0 == steps_on(old(self).0, n as int),
            forall|m: Arith<T>| #[trigger] computes(m) ==> r@ == numbers(m, old(self).0, n as int),
    {
        let ghost s = self.0;
        let mut r: Vec<T> = Vec::with_capacity(n);
        let mut i: usize = 0;
        while i < n
            invariant
                i <= n,
                r@.len() == i,
                self.0 == steps_on(s, i as int),
                forall|m: Arith<T>| #[trigger]
                    computes(m) ==> forall|j: int|
                        0 <= j < i ==> #[trigger] r@[j] == number_of(m, steps_on(s, j + 1)),
            decreases n - i,
        {
            r.push(self.next());
            i += 1;
        }
        assert forall|m: Arith<T>| #[trigger] computes(m) implies r@ == numbers(
            m,
            s,
            n as int,
        ) by {
            assert(r@ =~= numbers(m, s, n as int));
        }
        r
    }

    /// A tensor of the next numbers.
    pub fn tensor<T: Scalar>(&mut self, c: usize, h: usize, w: usize) -> (r: Tensor<T>)
        requires
            dims_fit(c as int, h as int, w as int),
        ensures
            r@.wf(),
            r.c == c && r.h == h && r.w == w,
            final(self).0 == steps_on(old(self).0, c * (h * w)),
            forall|m: Arith<T>| #[trigger]
                computes(m) ==> r.data@ == numbers(m, old(self).0, c * (h * w)),
    {
        let data = self.vec(c * (h * w));
        Tensor::from_vec(c, h, w, data)
    }
}

// ---- the bench ------------------------------------------------------------------------

/// An operation that was planned, and what it is to give.
#[derive(Debug)]
pub struct Case<T> {
    pub name: String,
    pub got: DTensor,
    pub want: Vec<T>,
}

/// A case as a mathematical value.
#[verifier::ext_equal]
pub struct Expect<T> {
    pub name: Seq<char>,
    pub got: DTensor,
    pub want: Seq<T>,
}

impl<T> View for Case<T> {
    type V = Expect<T>;

    open spec fn view(&self) -> Expect<T> {
        Expect { name: self.name@, got: self.got, want: self.want@ }
    }
}

/// Cases, the plan that computes them, and the numbers that the plan uploads.
#[derive(Debug)]
pub struct Bench<T> {
    pub m: CudaModel,
    pub rng: Rng,
    pub given: Vec<Vec<T>>,
    pub cases: Vec<Case<T>>,
}

/// A bench as a mathematical value.
#[verifier::ext_equal]
pub struct Trial<T> {
    pub plan: Plan,
    pub seed: u64,
    pub given: Seq<Seq<T>>,
    pub cases: Seq<Expect<T>>,
}

/// Numbers on the host and their buffer on the device.
#[verifier::ext_equal]
pub struct Held<T> {
    pub data: Seq<T>,
    pub buf: Option<usize>,
}

impl<T> View for Bench<T> {
    type V = Trial<T>;

    open spec fn view(&self) -> Trial<T> {
        Trial {
            plan: self.m@,
            seed: self.rng.0,
            given: self.given@.map_values(|v: Vec<T>| v@),
            cases: self.cases@.map_values(|c: Case<T>| c@),
        }
    }
}

impl<T> Trial<T> {
    /// Behind the upload of some numbers.
    pub open spec fn give(self, data: Seq<T>) -> (Trial<T>, Option<usize>) {
        let (plan, buf) = upload_plan(
            self.plan,
            Source::Given(self.given.len() as usize),
            data.len() as int,
        );
        (Trial { plan, seed: self.seed, given: self.given.push(data), cases: self.cases }, buf)
    }

    /// Behind the upload of the next `n` random numbers.
    pub open spec fn fresh(self, m: Arith<T>, n: int) -> (Trial<T>, Held<T>) {
        let data = numbers(m, self.seed, n);
        let (t, buf) = Trial { seed: steps_on(self.seed, n), ..self }.give(data);
        (t, Held { data, buf })
    }

    /// With one more case, which an operation computes.
    pub open spec fn expect(self, name: Seq<char>, op: (Plan, DTensor), want: Seq<T>) -> Trial<T> {
        Trial {
            plan: op.0,
            seed: self.seed,
            given: self.given,
            cases: self.cases.push(Expect { name, got: op.1, want }),
        }
    }
}

impl<T> Held<T> {
    /// The numbers as a tensor on the host.
    pub open spec fn img(self, c: int, h: int, w: int) -> Img<T> {
        Img { c, h, w, data: self.data }
    }

    /// The numbers as a tensor on the device.
    pub open spec fn tensor(self, c: usize, h: usize, w: usize) -> DTensor {
        DTensor { c, h, w, buf: self.buf }
    }

    /// The numbers as a weight on the device.
    pub open spec fn weight(self, shape: Seq<usize>) -> Dw {
        Dw { buf: self.buf, shape }
    }
}

/// A weight with two dimensions, or with four where its kernel has more than one cell.
pub open spec fn kernel_shape(oc: usize, ic: usize, k: usize) -> Seq<usize> {
    if k == 1 {
        seq![oc, ic]
    } else {
        seq![oc, ic, k, k]
    }
}

impl<T: Scalar> Bench<T> {
    /// An empty bench with random numbers from a seed.
    pub fn new(seed: u64) -> (r: Bench<T>)
        ensures
            r@ == (Trial::<T> {
                plan: start_plan(),
                seed: seeded(seed),
                given: Seq::empty(),
                cases: Seq::empty(),
            }),
            r.m.weights@.len() == 0,
    {
        let r = Bench {
            m: CudaModel::new(),
            rng: Rng::new(seed),
            given: Vec::new(),
            cases: Vec::new(),
        };
        assert(r@.given =~= Seq::<Seq<T>>::empty());
        assert(r@.cases =~= Seq::<Expect<T>>::empty());
        r
    }

    fn give(&mut self, data: &Vec<T>) -> (r: Option<usize>)
        ensures
            (final(self)@, r) == old(self)@.give(data@),
            final(self).m.weights == old(self).m.weights,
    {
        let ghost was = self@;
        let i = self.given.len();
        let buf = self.m.upload(Source::Given(i), data.len());
        self.given.push(copied(data));
        assert(self@.given =~= was.given.push(data@));
        assert(self@.cases =~= was.cases);
        buf
    }

    fn fresh(&mut self, n: usize) -> (r: (Vec<T>, Option<usize>))
        ensures
            r.0@.len() == n,
            forall|m: Arith<T>| #[trigger]
                computes(m) ==> (final(self)@, (Held { data: r.0@, buf: r.1 })) == old(
                    self,
                )@.fresh(m, n as int),
            final(self).m.weights == old(self).m.weights,
    {
        let ghost was = self@;
        let data = self.rng.vec(n);
        assert(self@ =~= (Trial { seed: steps_on(was.seed, n as int), ..was }));
        let buf = self.give(&data);
        (data, buf)
    }

    fn fresh_tensor(&mut self, c: usize, h: usize, w: usize) -> (r: (Tensor<T>, DTensor))
        requires
            dims_fit(c as int, h as int, w as int),
        ensures
            r.0@.wf(),
            r.0.c == c && r.0.h == h && r.0.w == w,
            forall|m: Arith<T>| #[trigger]
                computes(m) ==> {
                    let (t, x) = old(self)@.fresh(m, c * (h * w));
                    &&& final(self)@ == t
                    &&& r.0@ == x.img(c as int, h as int, w as int)
                    &&& r.1 == x.tensor(c, h, w)
                },
            final(self).m.weights == old(self).m.weights,
    {
        let (data, buf) = self.fresh(c * (h * w));
        (Tensor::from_vec(c, h, w, data), DTensor { c, h, w, buf })
    }

    fn expect(&mut self, name: &str, got: DTensor, want: Vec<T>)
        ensures
            final(self)@ == old(self)@.expect(name@, (old(self)@.plan, got), want@),
            final(self).m.weights == old(self).m.weights,
    {
        let ghost was = self@;
        let ghost e = Expect { name: name@, got, want: want@ };
        self.cases.push(Case { name: String::from_str(name), got, want });
        assert(self@.given =~= was.given);
        assert(self@.cases =~= was.cases.push(e));
    }
}

// ---- the cases ------------------------------------------------------------------------

/// The cases that go element by element, and the affine map.
#[verifier::opaque]
pub open spec fn elementwise<T>(m: Arith<T>, t: Trial<T>) -> Trial<T> {
    let (t, a) = t.fresh(m, 2048);
    let x = a.img(8, 16, 16);
    let d = a.tensor(8, 16, 16);
    let t = t.expect("copy"@, unary_plan(t.plan, Kernel::Copy, d), x.data);
    let t = t.expect(
        "relu"@,
        unary_plan(t.plan, Kernel::Relu, d),
        each(x, |v: T| relu_of(m, v)).data,
    );
    let t = t.expect(
        "sigmoid"@,
        unary_plan(t.plan, Kernel::Sigmoid, d),
        each(x, |v: T| sigmoid_of(m, v)).data,
    );
    let t = t.expect(
        "gelu"@,
        unary_plan(t.plan, Kernel::GeluErf, d),
        each(x, |v: T| gelu_of(m, v)).data,
    );
    let (t, scale) = t.fresh(m, 8);
    let (t, shift) = t.fresh(m, 8);
    t.expect(
        "affine"@,
        affine_plan(t.plan, d, scale.weight(seq![8usize]), shift.weight(seq![8usize])),
        affine_spec(m, x, scale.data, shift.data).data,
    )
}

/// A convolution of `x`, which is `d` on the device.
#[verifier::opaque]
pub open spec fn conv_case<T>(
    m: Arith<T>,
    t: Trial<T>,
    name: Seq<char>,
    x: Img<T>,
    d: DTensor,
    oc: usize,
    ic: usize,
    k: usize,
    stride4: bool,
) -> Trial<T> {
    let (t, w) = t.fresh(m, (oc * ic) * (k * k));
    let (t, b) = t.fresh(m, oc as int);
    let want = if stride4 {
        conv4x4_stride4_spec(m, x, w.data, oc as int, ic as int, Some(b.data))
    } else if k == 1 {
        conv1x1_spec(m, x, w.data, oc as int, ic as int, Some(b.data))
    } else {
        conv_kxk_spec(m, x, w.data, oc as int, ic as int, k as int, Some(b.data))
    };
    t.expect(
        name,
        conv_plan(t.plan, d, w.weight(kernel_shape(oc, ic, k)), b.buf, k, stride4),
        want.data,
    )
}

/// The layer norm of the rows of `x`, which is `d` on the device.
#[verifier::opaque]
pub open spec fn norm_case<T>(
    m: Arith<T>,
    t: Trial<T>,
    name: Seq<char>,
    x: Img<T>,
    d: DTensor,
    c: usize,
) -> Trial<T> {
    let (t, w) = t.fresh(m, c as int);
    let (t, b) = t.fresh(m, c as int);
    t.expect(
        name,
        layernorm_plan(t.plan, d, w.weight(seq![c]), b.weight(seq![c]), LN_EPS),
        layernorm_spec(
            m,
            x.data,
            x.data.len() as int / c as int,
            c as int,
            w.data,
            b.data,
            (m.bits)(LN_EPS),
        ),
    )
}

/// The products of the first `n` elements of a row and of the weights of an output, added to
/// its bias.
pub open spec fn from_bias<T>(
    m: Arith<T>,
    x: Seq<T>,
    w: Seq<T>,
    b: Seq<T>,
    ic: int,
    row: int,
    o: int,
    n: int,
) -> T
    decreases n,
{
    if n <= 0 {
        b[o]
    } else {
        (m.plus)(
            from_bias(m, x, w, b, ic, row, o, n - 1),
            (m.times)(x[row * ic + (n - 1)], w[o * ic + (n - 1)]),
        )
    }
}

/// All outputs of all rows.
pub open spec fn rows_from_bias<T>(
    m: Arith<T>,
    x: Seq<T>,
    w: Seq<T>,
    b: Seq<T>,
    rows: int,
    ic: int,
    oc: int,
) -> Seq<T> {
    Seq::new((rows * oc) as nat, |i: int| from_bias(m, x, w, b, ic, i / oc, i % oc, ic))
}

/// A linear map of rows.
#[verifier::opaque]
pub open spec fn linear_case<T>(
    m: Arith<T>,
    t: Trial<T>,
    rows: usize,
    ic: usize,
    oc: usize,
) -> Trial<T> {
    let (t, x) = t.fresh(m, ic * (1 * rows));
    let (t, w) = t.fresh(m, oc * ic);
    let (t, b) = t.fresh(m, oc as int);
    t.expect(
        "linear "@ + number_text(rows as int) + "x"@ + number_text(ic as int) + "->"@
            + number_text(oc as int),
        linear_plan(t.plan, x.tensor(ic, 1, rows), w.weight(seq![oc, ic]), b.buf, rows),
        rows_from_bias(m, x.data, w.data, b.data, rows as int, ic as int, oc as int),
    )
}

/// The tiles of an image.
#[verifier::opaque]
pub open spec fn tile_case<T>(
    m: Arith<T>,
    t: Trial<T>,
    c: usize,
    h: usize,
    w: usize,
    ph: usize,
    pw: usize,
) -> Trial<T> {
    let (t, x) = t.fresh(m, c * (h * w));
    t.expect(
        "tile_patches "@ + number_text(h as int) + "x"@ + number_text(w as int) + "->"@
            + number_text(ph as int) + "x"@ + number_text(pw as int),
        tile_patches_plan(t.plan, x.tensor(c, h, w), ph, pw),
        patches_spec(m, x.img(c as int, h as int, w as int), ph as int, pw as int).data,
    )
}

/// Two tensors one behind the other.
#[verifier::opaque]
pub open spec fn cat_case<T>(m: Arith<T>, t: Trial<T>) -> Trial<T> {
    let (t, a) = t.fresh(m, 60);
    let (t, b) = t.fresh(m, 140);
    t.expect(
        "cat_channels"@,
        cat_plan(t.plan, seq![a.tensor(3, 4, 5), b.tensor(7, 4, 5)]),
        cat_spec(seq![a.img(3, 4, 5), b.img(7, 4, 5)]).data,
    )
}

/// Interpolation, with and without aligned corners.
#[verifier::opaque]
pub open spec fn resize_cases<T>(m: Arith<T>, t: Trial<T>) -> Trial<T> {
    let (t, x) = t.fresh(m, 1092);
    let d = x.tensor(4, 21, 13);
    let t = t.expect(
        "resize (align=F)"@,
        resize_bilinear_plan(t.plan, d, 7, 9, false),
        resize_spec(m, x.img(4, 21, 13), 7, 9, false).data,
    );
    t.expect(
        "resize (align=T)"@,
        resize_bilinear_plan(t.plan, d, 7, 9, true),
        resize_spec(m, x.img(4, 21, 13), 7, 9, true).data,
    )
}

/// A number between -1 and 1, brought between 0 and 1.
pub open spec fn lifted<T>(m: Arith<T>, v: T) -> T {
    (m.times)((m.plus)(v, m.one()), (m.bits)(HALF))
}

/// A convolution at moved points.
#[verifier::opaque]
pub open spec fn deform_case<T>(m: Arith<T>, t: Trial<T>, k: usize, pad: usize) -> Trial<T> {
    let (t, x) = t.fresh(m, 792);
    let (t, off) = t.fresh(m, (2 * (k * k)) * (11 * 9));
    let drawn = numbers(m, t.seed, (k * k) * (11 * 9));
    let mask = Seq::new(drawn.len(), |i: int| lifted(m, drawn[i]));
    let t = Trial { seed: steps_on(t.seed, (k * k) * (11 * 9)), ..t };
    let (t, mask_buf) = t.give(mask);
    let (t, w) = t.fresh(m, (6 * 8) * (k * k));
    let held = Held { data: mask, buf: mask_buf };
    t.expect(
        "deform k="@ + number_text(k as int) + " pad="@ + number_text(pad as int),
        deform_conv_plan(
            t.plan,
            x.tensor(8, 11, 9),
            off.tensor((2 * (k * k)) as usize, 11, 9),
            held.tensor((k * k) as usize, 11, 9),
            w.weight(seq![6usize, 8usize, k, k]),
            k,
            pad,
        ),
        deform_spec(m, x.img(8, 11, 9), off.data, mask, w.data, 6, k as int, pad as int).data,
    )
}

impl<T: Scalar> Bench<T> {
    fn elementwise(&mut self)
        ensures
            forall|m: Arith<T>| #[trigger]
                computes(m) ==> final(self)@ == elementwise(m, old(self)@),
            final(self).m.weights == old(self).m.weights,
    {
        reveal(elementwise);
        let (x, d) = self.fresh_tensor(8, 16, 16);
        let got = self.m.copy(&d);
        self.expect("copy", got, copied(&x.data));
        let mut want = x.clone();
        relu_inplace(&mut want);
        let got = self.m.relu(&d);
        self.expect("relu", got, want.data);
        let mut want = x.clone();
        sigmoid_inplace(&mut want);
        let got = self.m.sigmoid(&d);
        self.expect("sigmoid", got, want.data);
        let mut want = x.clone();
        gelu_exact_inplace(&mut want);
        let got = self.m.gelu(&d);
        self.expect("gelu", got, want.data);
        let (scale, sb) = self.fresh(8);
        let (shift, hb) = self.fresh(8);
        let sw = DW { buf: sb, shape: vec![8] };
        let hw = DW { buf: hb, shape: vec![8] };
        assert(sw@ =~= Dw { buf: sb, shape: seq![8usize] });
        assert(hw@ =~= Dw { buf: hb, shape: seq![8usize] });
        let mut want = x.clone();
        apply_affine_inplace(&mut want, &scale, &shift);
        let got = self.m.affine(&d, &sw, &hw);
        self.expect("affine", got, want.data);
    }

    fn conv_case(
        &mut self,
        name: &str,
        x: &Tensor<T>,
        d: &DTensor,
        oc: usize,
        ic: usize,
        k: usize,
        stride4: bool,
    )
        requires
            x@.wf(),
            x.c == ic,
            oc <= 64,
            ic <= 64,
            x.h <= 64,
            x.w <= 64,
            1 <= k <= 8,
            stride4 ==> k == 4,
        ensures
            forall|m: Arith<T>| #[trigger]
                computes(m) ==> final(self)@ == conv_case(
                    m,
                    old(self)@,
                    name@,
                    x@,
                    *d,
                    oc,
                    ic,
                    k,
                    stride4,
                ),
            final(self).m.weights == old(self).m.weights,
    {
        reveal(conv_case);
        assert(oc * ic <= 4096) by (nonlinear_arith)
            requires
                oc <= 64,
                ic <= 64,
        ;
        assert(k * k <= 64) by (nonlinear_arith)
            requires
                1 <= k <= 8,
        ;
        assert((oc * ic) * (k * k) <= 262144) by (nonlinear_arith)
            requires
                0 <= oc * ic <= 4096,
                0 <= k * k <= 64,
        ;
        assert(oc * ic * k * k == (oc * ic) * (k * k)) by (nonlinear_arith);
        assert(x.h * x.w <= 4096) by (nonlinear_arith)
            requires
                x.h <= 64,
                x.w <= 64,
        ;
        assert(oc * (x.h * x.w) <= 262144) by (nonlinear_arith)
            requires
                oc <= 64,
                x.h * x.w <= 4096,
        ;
        assert((x.h as int / 4) * (x.w as int / 4) <= 4096) by (nonlinear_arith)
            requires
                x.h <= 64,
                x.w <= 64,
        ;
        assert(oc * ((x.h as int / 4) * (x.w as int / 4)) <= 262144) by (nonlinear_arith)
            requires
                oc <= 64,
                (x.h as int / 4) * (x.w as int / 4) <= 4096,
        ;
        let (w, wb) = self.fresh((oc * ic) * (k * k));
        let (b, bb) = self.fresh(oc);
        let shape: Vec<usize> = if k == 1 {
            vec![oc, ic]
        } else {
            vec![oc, ic, k, k]
        };
        assert(shape@ =~= kernel_shape(oc, ic, k));
        let dw = DW { buf: wb, shape };
        let db = DW { buf: bb, shape: vec![oc] };
        let want = if stride4 {
            conv4x4_stride4(x, &w, oc, ic, Some(b.as_slice()))
        } else if k == 1 {
            conv1x1(x, &w, oc, ic, Some(b.as_slice()))
        } else {
            conv_kxk(x, &w, oc, ic, k, Some(b.as_slice()))
        };
        let got = self.m.conv(d, &dw, Some(&db), k, stride4);
        self.expect(name, got, want.data);
    }

    fn norm_case(&mut self, name: &str, x: &Tensor<T>, d: &DTensor, c: usize)
        requires
            0 < c,
        ensures
            forall|m: Arith<T>| #[trigger]
                computes(m) ==> final(self)@ == norm_case(m, old(self)@, name@, x@, *d, c),
            final(self).m.weights == old(self).m.weights,
    {
        reveal(norm_case);
        let (w, wb) = self.fresh(c);
        let (b, bb) = self.fresh(c);
        let dw = DW { buf: wb, shape: vec![c] };
        let db = DW { buf: bb, shape: vec![c] };
        assert(dw@ =~= Dw { buf: wb, shape: seq![c] });
        assert(db@ =~= Dw { buf: bb, shape: seq![c] });
        let mut want = copied(&x.data);
        layernorm_slice(&mut want, c, &w, &b, T::from_bits(LN_EPS));
        let got = self.m.layernorm(d, &dw, &db, LN_EPS);
        self.expect(name, got, want);
    }
}

/// One output of one row.
fn output_of<T: Scalar>(x: &Vec<T>, w: &Vec<T>, b: &Vec<T>, ic: usize, row: usize, o: usize) -> (r:
    T)
    requires
        (row + 1) * ic <= x@.len(),
        (o + 1) * ic <= w@.len(),
        o < b@.len(),
    ensures
        forall|m: Arith<T>| #[trigger]
            computes(m) ==> r == from_bias(
                m,
                x@,
                w@,
                b@,
                ic as int,
                row as int,
                o as int,
                ic as int,
            ),
{
    assert((row + 1) * ic == row * ic + ic) by (nonlinear_arith);
    assert((o + 1) * ic == o * ic + ic) by (nonlinear_arith);
    assert(x@.len() == x.len() && w@.len() == w.len());
    let mut acc = b[o];
    let mut c: usize = 0;
    assert(0 <= row * ic) by (nonlinear_arith);
    assert(0 <= o * ic) by (nonlinear_arith);
    while c < ic
        invariant
            c <= ic,
            0 <= row * ic,
            0 <= o * ic,
            row * ic + ic <= x@.len() <= usize::MAX,
            o * ic + ic <= w@.len() <= usize::MAX,
            forall|m: Arith<T>| #[trigger]
                computes(m) ==> acc == from_bias(
                    m,
                    x@,
                    w@,
                    b@,
                    ic as int,
                    row as int,
                    o as int,
                    c as int,
                ),
        decreases ic - c,
    {
        acc = acc.plus(x[row * ic + c].times(w[o * ic + c]));
        c += 1;
    }
    acc
}

/// All outputs of all rows.
fn outputs<T: Scalar>(
    x: &Vec<T>,
    w: &Vec<T>,
    b: &Vec<T>,
    rows: usize,
    ic: usize,
    oc: usize,
) -> (r: Vec<T>)
    requires
        0 < oc,
        rows * ic <= x@.len(),
        oc * ic <= w@.len(),
        oc <= b@.len(),
        rows * oc <= usize::MAX,
    ensures
        forall|m: Arith<T>| #[trigger]
            computes(m) ==> r@ == rows_from_bias(
                m,
                x@,
                w@,
                b@,
                rows as int,
                ic as int,
                oc as int,
            ),
{
    let n = rows * oc;
    let mut r: Vec<T> = Vec::with_capacity(n);
    let mut i: usize = 0;
    while i < n
        invariant
            i <= n,
            n == rows * oc,
            0 < oc,
            rows * ic <= x@.len(),
            oc * ic <= w@.len(),
            oc <= b@.len(),
            r@.len() == i,
            forall|m: Arith<T>| #[trigger]
                computes(m) ==> forall|j: int|
                    0 <= j < i ==> #[trigger] r@[j] == rows_from_bias(
                        m,
                        x@,
                        w@,
                        b@,
                        rows as int,
                        ic as int,
                        oc as int,
                    )[j],
        decreases n - i,
    {
        let row = i / oc;
        let o = i % oc;
        proof {
            lemma_split(i as int, rows as int, oc as int);
            assert((row + 1) * ic <= rows * ic) by (nonlinear_arith)
                requires
                    row + 1 <= rows,
            ;
            assert((o + 1) * ic <= oc * ic) by (nonlinear_arith)
                requires
                    o + 1 <= oc,
            ;
        }
        r.push(output_of(x, w, b, ic, row, o));
        i += 1;
    }
    assert forall|m: Arith<T>| #[trigger] computes(m) implies r@ == rows_from_bias(
        m,
        x@,
        w@,
        b@,
        rows as int,
        ic as int,
        oc as int,
    ) by {
        assert(r@ =~= rows_from_bias(m, x@, w@, b@, rows as int, ic as int, oc as int));
    }
    r
}

/// Numbers between -1 and 1, brought between 0 and 1.
fn lift<T: Scalar>(v: &Vec<T>) -> (r: Vec<T>)
    ensures
        forall|m: Arith<T>| #[trigger]
            computes(m) ==> r@ == Seq::new(v@.len(), |i: int| lifted(m, v@[i])),
        r@.len() == v@.len(),
{
    let mut r: Vec<T> = Vec::with_capacity(v.len());
    let mut i: usize = 0;
    while i < v.len()
        invariant
            i <= v@.len(),
            r@.len() == i,
            forall|m: Arith<T>| #[trigger]
                computes(m) ==> forall|j: int| 0 <= j < i ==> #[trigger] r@[j] == lifted(m, v@[j]),
        decreases v@.len() - i,
    {
        r.push(v[i].plus(T::from_bits(ONE)).times(T::from_bits(HALF)));
        i += 1;
    }
    assert forall|m: Arith<T>| #[trigger] computes(m) implies r@ == Seq::new(
        v@.len(),
        |i: int| lifted(m, v@[i]),
    ) by {
        assert(r@ =~= Seq::new(v@.len(), |i: int| lifted(m, v@[i])));
    }
    r
}

impl<T: Scalar> Bench<T> {
    fn linear_case(&mut self, rows: usize, ic: usize, oc: usize)
        requires
            rows <= 64,
            0 < ic <= 1024,
            0 < oc <= 4096,
        ensures
            forall|m: Arith<T>| #[trigger]
                computes(m) ==> final(self)@ == linear_case(m, old(self)@, rows, ic, oc),
            final(self).m.weights == old(self).m.weights,
    {
        reveal(linear_case);
        assert(rows * ic <= 65536) by (nonlinear_arith)
            requires
                rows <= 64,
                ic <= 1024,
        ;
        assert(oc * ic <= 4194304) by (nonlinear_arith)
            requires
                oc <= 4096,
                ic <= 1024,
        ;
        assert(rows * oc <= 262144) by (nonlinear_arith)
            requires
                rows <= 64,
                oc <= 4096,
        ;
        assert(ic * (1 * rows) == rows * ic) by (nonlinear_arith);
        let (x, dx) = self.fresh_tensor(ic, 1, rows);
        let (w, wb) = self.fresh(oc * ic);
        let (b, bb) = self.fresh(oc);
        let dw = DW { buf: wb, shape: vec![oc, ic] };
        let db = DW { buf: bb, shape: vec![oc] };
        assert(dw@ =~= Dw { buf: wb, shape: seq![oc, ic] });
        let want = outputs(&x.data, &w, &b, rows, ic, oc);
        let got = self.m.linear(&dx, &dw, Some(&db), rows);
        let mut name = numbered("linear ", rows, "x");
        name.append(number_string(ic).as_str());
        name.append("->");
        name.append(number_string(oc).as_str());
        self.expect(name.as_str(), got, want);
    }

    fn tile_case(&mut self, c: usize, h: usize, w: usize, ph: usize, pw: usize)
        requires
            c <= 8,
            h <= 64,
            w <= 64,
            0 < ph <= 64,
            0 < pw <= 64,
        ensures
            forall|m: Arith<T>| #[trigger]
                computes(m) ==> final(self)@ == tile_case(m, old(self)@, c, h, w, ph, pw),
            final(self).m.weights == old(self).m.weights,
    {
        reveal(tile_case);
        assert(h * w <= 4096) by (nonlinear_arith)
            requires
                h <= 64,
                w <= 64,
        ;
        assert(c * (h * w) <= 32768) by (nonlinear_arith)
            requires
                c <= 8,
                h * w <= 4096,
        ;
        proof {
            lemma_tiles_fit(c as int, h as int, w as int, ph as int, pw as int);
        }
        let (x, d) = self.fresh_tensor(c, h, w);
        let want = get_patches_batch(&x, ph, pw);
        let got = self.m.tile_patches(&d, ph, pw);
        let mut name = numbered("tile_patches ", h, "x");
        name.append(number_string(w).as_str());
        name.append("->");
        name.append(number_string(ph).as_str());
        name.append("x");
        name.append(number_string(pw).as_str());
        self.expect(name.as_str(), got, want.data);
    }

    fn cat_case(&mut self)
        ensures
            forall|m: Arith<T>| #[trigger]
                computes(m) ==> final(self)@ == cat_case(m, old(self)@),
            final(self).m.weights == old(self).m.weights,
    {
        reveal(cat_case);
        let (a, da) = self.fresh_tensor(3, 4, 5);
        let (b, db) = self.fresh_tensor(7, 4, 5);
        let want = cat_two(&a, &b);
        let parts: Vec<DTensor> = vec![da, db];
        assert(parts@ =~= seq![da, db]);
        let got = self.m.cat(&parts);
        self.expect("cat_channels", got, want.data);
    }

    fn resize_cases(&mut self)
        ensures
            forall|m: Arith<T>| #[trigger]
                computes(m) ==> final(self)@ == resize_cases(m, old(self)@),
            final(self).m.weights == old(self).m.weights,
    {
        reveal(resize_cases);
        let (x, d) = self.fresh_tensor(4, 21, 13);
        let want = resize_bilinear(&x, 7, 9, false);
        let got = self.m.resize_bilinear(&d, 7, 9, false);
        self.expect("resize (align=F)", got, want.data);
        let want = resize_bilinear(&x, 7, 9, true);
        let got = self.m.resize_bilinear(&d, 7, 9, true);
        self.expect("resize (align=T)", got, want.data);
    }

    fn deform_case(&mut self, k: usize, pad: usize)
        requires
            1 <= k <= 8,
        ensures
            forall|m: Arith<T>| #[trigger]
                computes(m) ==> final(self)@ == deform_case(m, old(self)@, k, pad),
            final(self).m.weights == old(self).m.weights,
    {
        reveal(deform_case);
        assert(k * k <= 64) by (nonlinear_arith)
            requires
                1 <= k <= 8,
        ;
        assert(6 * 8 * k * k == (6 * 8) * (k * k)) by (nonlinear_arith);
        let kk = k * k;
        let (x, dx) = self.fresh_tensor(8, 11, 9);
        let (off, doff) = self.fresh_tensor(2 * kk, 11, 9);
        let ghost t0 = self@;
        let drawn: Vec<T> = self.rng.vec(kk * (11 * 9));
        assert(self@ =~= (Trial { seed: steps_on(t0.seed, kk * (11 * 9)), ..t0 }));
        let mask_data = lift(&drawn);
        let mb = self.give(&mask_data);
        let dmask = DTensor { c: kk, h: 11, w: 9, buf: mb };
        let mask = Tensor::from_vec(kk, 11, 9, mask_data);
        let (w, wb) = self.fresh((6 * 8) * kk);
        let dw = DW { buf: wb, shape: vec![6, 8, k, k] };
        assert(dw@ =~= Dw { buf: wb, shape: seq![6usize, 8usize, k, k] });
        let want = deform_conv2d(&x, &off, &mask, &w, 6, k, pad);
        let got = self.m.deform_conv(&dx, &doff, &dmask, &dw, k, pad);
        let mut name = numbered("deform k=", k, " pad=");
        name.append(number_string(pad).as_str());
        self.expect(name.as_str(), got, want.data);
    }
}

proof fn lemma_tiles_fit(c: int, h: int, w: int, ph: int, pw: int)
    requires
        0 <= c <= 8,
        0 <= h <= 64,
        0 <= w <= 64,
        0 < ph <= 64,
        0 < pw <= 64,
    ensures
        patches_fits(c, h, w, ph, pw),
{
    let a = steps(h, ph);
    let b = steps(w, pw);
    assert(0 <= a <= 128) by (nonlinear_arith)
        requires
            a == (h + ph - 1) / ph,
            0 <= h <= 64,
            0 < ph <= 64,
    ;
    assert(0 <= b <= 128) by (nonlinear_arith)
        requires
            b == (w + pw - 1) / pw,
            0 <= w <= 64,
            0 < pw <= 64,
    ;
    assert(0 <= c * a <= 1024) by (nonlinear_arith)
        requires
            0 <= c <= 8,
            0 <= a <= 128,
    ;
    assert(0 <= c * a * b <= 131072) by (nonlinear_arith)
        requires
            0 <= c * a <= 1024,
            0 <= b <= 128,
    ;
    assert(0 <= ph * pw <= 4096) by (nonlinear_arith)
        requires
            0 < ph <= 64,
            0 < pw <= 64,
    ;
    assert((c * a * b) * (ph * pw) <= 536870912) by (nonlinear_arith)
        requires
            0 <= c * a * b <= 131072,
            0 <= ph * pw <= 4096,
    ;
}

// ---- all of them ----------------------------------------------------------------------

/// The convolutions and the norms, some of the same tensor.
#[verifier::opaque]
pub open spec fn conv_and_norm_cases<T>(m: Arith<T>, t: Trial<T>) -> Trial<T> {
    let (t, a) = t.fresh(m, 1008);
    let x = a.img(16, 9, 7);
    let d = a.tensor(16, 9, 7);
    let t = conv_case(m, t, "conv1x1"@, x, d, 32, 16, 1, false);
    let t = conv_case(m, t, "conv3x3"@, x, d, 24, 16, 3, false);
    let t = conv_case(m, t, "conv7x7"@, x, d, 8, 16, 7, false);
    let (t, b) = t.fresh(m, 192);
    let t = conv_case(
        m,
        t,
        "conv4x4s4"@,
        b.img(3, 8, 8),
        b.tensor(3, 8, 8),
        16,
        3,
        4,
        true,
    );
    let t = norm_case(m, t, "layernorm C=16"@, x, d, 16);
    let (t, y) = t.fresh(m, 195);
    let t = norm_case(m, t, "layernorm C=13"@, y.img(13, 5, 3), y.tensor(13, 5, 3), 13);
    let t = t.expect("global_avg_pool"@, global_avg_pool_plan(t.plan, d), pooled(m, x));
    let (t, z) = t.fresh(m, 6336);
    norm_case(m, t, "layernorm C=192"@, z.img(192, 1, 33), z.tensor(192, 1, 33), 192)
}

/// All cases.
pub open spec fn all_cases<T>(m: Arith<T>) -> Trial<T> {
    let t = Trial {
        plan: start_plan(),
        seed: seeded(12345),
        given: Seq::empty(),
        cases: Seq::empty(),
    };
    let t = elementwise(m, t);
    let t = conv_and_norm_cases(m, t);
    let t = linear_case(m, t, 37, 24, 32);
    let t = linear_case(m, t, 37, 192, 100);
    let t = linear_case(m, t, 29, 768, 3072);
    let t = tile_case(m, t, 2, 5, 7, 3, 2);
    let t = tile_case(m, t, 3, 32, 32, 12, 7);
    let t = cat_case(m, t);
    let t = resize_cases(m, t);
    let t = deform_case(m, t, 1, 0);
    let t = deform_case(m, t, 3, 1);
    deform_case(m, t, 7, 3)
}

impl<T: Scalar> Bench<T> {
    fn conv_and_norm_cases(&mut self)
        ensures
            forall|m: Arith<T>| #[trigger]
                computes(m) ==> final(self)@ == conv_and_norm_cases(m, old(self)@),
            final(self).m.weights == old(self).m.weights,
    {
        reveal(conv_and_norm_cases);
        let (x, d) = self.fresh_tensor(16, 9, 7);
        self.conv_case("conv1x1", &x, &d, 32, 16, 1, false);
        self.conv_case("conv3x3", &x, &d, 24, 16, 3, false);
        self.conv_case("conv7x7", &x, &d, 8, 16, 7, false);
        let (x4, d4) = self.fresh_tensor(3, 8, 8);
        self.conv_case("conv4x4s4", &x4, &d4, 16, 3, 4, true);
        self.norm_case("layernorm C=16", &x, &d, 16);
        let (y, dy) = self.fresh_tensor(13, 5, 3);
        self.norm_case("layernorm C=13", &y, &dy, 13);
        let want = global_avg_pool(&x);
        let got = self.m.global_avg_pool(&d);
        self.expect("global_avg_pool", got, want);
        let (z, dz) = self.fresh_tensor(192, 1, 33);
        self.norm_case("layernorm C=192", &z, &dz, 192);
    }
}

/// All operations that the device is tested on.
pub fn selftest<T: Scalar>() -> (r: Bench<T>)
    ensures
        forall|m: Arith<T>| #[trigger] computes(m) ==> r@ == all_cases(m),
        r.m.weights@.len() == 0,
{
    let mut b: Bench<T> = Bench::new(12345);
    b.elementwise();
    b.conv_and_norm_cases();
    b.linear_case(37, 24, 32);
    b.linear_case(37, 192, 100);
    b.linear_case(29, 768, 3072);
    b.tile_case(2, 5, 7, 3, 2);
    b.tile_case(3, 32, 32, 12, 7);
    b.cat_case();
    b.resize_cases();
    b.deform_case(1, 0);
    b.deform_case(3, 1);
    b.deform_case(7, 3);
    b
}

// ---- laws -----------------------------------------------------------------------------

proof fn lemma_steps_on(s: u64, a: int, b: int)
    requires
        0 <= a,
        0 <= b,
    ensures
        steps_on(steps_on(s, a), b) == steps_on(s, a + b),
    decreases b,
{
    if b > 0 {
        lemma_steps_on(s, a, b - 1);
    }
}

/// Drawing numbers at once or in two parts gives the same numbers and leads to the same
/// state.
pub proof fn lemma_numbers_in_parts<T>(m: Arith<T>, s: u64, a: int, b: int)
    requires
        0 <= a,
        0 <= b,
    ensures
        numbers(m, s, a + b) == numbers(m, s, a) + numbers(m, steps_on(s, a), b),
        steps_on(steps_on(s, a), b) == steps_on(s, a + b),
{
    lemma_steps_on(s, a, b);
    let both = numbers(m, s, a) + numbers(m, steps_on(s, a), b);
    assert forall|i: int| 0 <= i < a + b implies numbers(m, s, a + b)[i] == both[i] by {
        if i >= a {
            lemma_steps_on(s, a, i - a + 1);
        }
    }
    assert(numbers(m, s, a + b) =~= both);
}

} // verus!
