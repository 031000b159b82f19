//! The parts of the decoder.

use crate::conv::{conv1x1, conv1x1_fits, conv1x1_spec, conv_kxk, conv_kxk_fits, conv_kxk_spec};
use crate::deform::{deform_conv2d, deform_fits, deform_spec};
use crate::layout::{cat_all, cat_c, cat_fits, cat_spec, imgs};
use crate::linear::LN_EPS;
use crate::loading::{bn_steps, clear, dimension, fails_with, group_steps, reads, Step};
use crate::parallel::par_map;
use crate::pointwise::{
    affine_spec, apply_affine_inplace, each, global_avg_pool, pooled, relu_inplace, relu_of,
    sigmoid_inplace, sigmoid_of,
};
use crate::resize::{resize_bilinear, resize_fits, resize_spec};
use crate::scalar::{computes, Arith, Scalar, ONE};
use crate::tensor::{copied, dims_fit, Img, Tensor};
use crate::text::text;
use crate::weights::{data, entry, Checkpoint, Problem, Weights, WeightsError};
use crate::words::{joined, number_text, numbered};
use vstd::prelude::*;

verus! {

broadcast use group_steps;

/// Bit pattern of 2.
pub const TWO: u32 = 0x4000_0000;

// ---- folded batch norm ----------------------------------------------------------------

/// The scale that batch norm with these weights comes down to.
pub open spec fn folded_scale<T>(m: Arith<T>, w: Seq<T>, var: Seq<T>) -> Seq<T> {
    Seq::new(
        w.len(),
        |c: int| (m.over)(w[c], (m.square_root)((m.plus)(var[c], (m.bits)(LN_EPS)))),
    )
}

/// The shift that batch norm with these weights comes down to.
pub open spec fn folded_shift<T>(
    m: Arith<T>,
    w: Seq<T>,
    b: Seq<T>,
    mean: Seq<T>,
    var: Seq<T>,
) -> Seq<T> {
    Seq::new(
        w.len(),
        |c: int| (m.minus)(b[c], (m.times)(mean[c], folded_scale(m, w, var)[c])),
    )
}

/// Batch norm folded into a scale and a shift for each plane.
#[derive(Debug)]
pub struct Affine<T> {
    pub scale: Vec<T>,
    pub shift: Vec<T>,
}

impl<T: Copy> Clone for Affine<T> {
    fn clone(&self) -> (r: Self)
        ensures
            r.scale@ == self.scale@,
            r.shift@ == self.shift@,
    {
        Affine { scale: copied(&self.scale), shift: copied(&self.shift) }
    }
}

impl<T: Scalar> Affine<T> {
    /// The steps by which batch norm is loaded.
    pub open spec fn steps(prefix: Seq<char>) -> Seq<Step> {
        bn_steps(prefix)
    }

    /// Scale and shift are those of the batch norm that the weights hold under this prefix.
    pub open spec fn loaded(self, w: Checkpoint, prefix: Seq<char>) -> bool {
        forall|m: Arith<T>| #[trigger]
            computes(m) ==> self.scale@ == folded_scale(
                m,
                data(m, w, prefix + ".weight"@),
                data(m, w, prefix + ".running_var"@),
            ) && self.shift@ == folded_shift(
                m,
                data(m, w, prefix + ".weight"@),
                data(m, w, prefix + ".bias"@),
                data(m, w, prefix + ".running_mean"@),
                data(m, w, prefix + ".running_var"@),
            )
    }

    fn fold(w: &Vec<T>, b: &Vec<T>, mean: &Vec<T>, var: &Vec<T>) -> (r: Affine<T>)
        requires
            w@.len() <= b@.len(),
            w@.len() <= mean@.len(),
            w@.len() <= var@.len(),
        ensures
            forall|m: Arith<T>| #[trigger]
                computes(m) ==> r.scale@ == folded_scale(m, w@, var@) && r.shift@ == folded_shift(
                    m,
                    w@,
                    b@,
                    mean@,
                    var@,
                ),
    {
        let n = w.len();
        let mut scale: Vec<T> = Vec::with_capacity(n);
        let mut shift: Vec<T> = Vec::with_capacity(n);
        let mut c: usize = 0;
        while c < n
            invariant
                c <= n,
                n == w@.len(),
                n <= b@.len(),
                n <= mean@.len(),
                n <= var@.len(),
                scale@.len() == c,
                shift@.len() == c,
                forall|m: Arith<T>| #[trigger]
                    computes(m) ==> forall|i: int|
                        0 <= i < c ==> #[trigger] scale@[i] == folded_scale(m, w@, var@)[i],
                forall|m: Arith<T>| #[trigger]
                    computes(m) ==> forall|i: int|
                        0 <= i < c ==> #[trigger] shift@[i] == folded_shift(
                            m,
                            w@,
                            b@,
                            mean@,
                            var@,
                        )[i],
            decreases n - c,
        {
            let s = w[c].over(var[c].plus(T::from_bits(LN_EPS)).square_root());
            scale.push(s);
            shift.push(b[c].minus(mean[c].times(s)));
            c += 1;
        }
        assert forall|m: Arith<T>| #[trigger] computes(m) implies scale@ == folded_scale(
            m,
            w@,
            var@,
        ) && shift@ == folded_shift(m, w@, b@, mean@, var@) by {
            assert(scale@ =~= folded_scale(m, w@, var@));
            assert(shift@ =~= folded_shift(m, w@, b@, mean@, var@));
        }
        Affine { scale, shift }
    }

    /// Loads batch norm and folds it.
    pub fn load(wts: &Weights, prefix: &str) -> (r: Result<Affine<T>, WeightsError>)
        requires
            wts.wf(),
        ensures
            match r {
                Ok(a) => clear(wts@, Self::steps(prefix@)) && a.loaded(wts@, prefix@),
                Err(e) => fails_with(wts@, Self::steps(prefix@), e@),
            },
    {
        reveal(bn_steps);
        let w: Vec<T> = match wts.get(joined(prefix, ".weight").as_str()) {
            Err(e) => {
                return Err(e);
            },
            Ok(v) => v,
        };
        let bname = joined(prefix, ".bias");
        let b: Vec<T> = match wts.get(bname.as_str()) {
            Err(e) => {
                return Err(e);
            },
            Ok(v) => v,
        };
        let mname = joined(prefix, ".running_mean");
        let mean: Vec<T> = match wts.get(mname.as_str()) {
            Err(e) => {
                return Err(e);
            },
            Ok(v) => v,
        };
        let vname = joined(prefix, ".running_var");
        let var: Vec<T> = match wts.get(vname.as_str()) {
            Err(e) => {
                return Err(e);
            },
            Ok(v) => v,
        };
        if var.len() < w.len() {
            return Err(Problem::TooShort { name: text(vname.as_str()) });
        }
        if b.len() < w.len() {
            return Err(Problem::TooShort { name: text(bname.as_str()) });
        }
        if mean.len() < w.len() {
            return Err(Problem::TooShort { name: text(mname.as_str()) });
        }
        Ok(Self::fold(&w, &b, &mean, &var))
    }

    /// Each plane scaled and shifted.
    pub open spec fn out(self, m: Arith<T>, x: Img<T>) -> Img<T> {
        affine_spec(m, x, self.scale@, self.shift@)
    }

    /// There is a scale and a shift for each of `c` planes.
    pub open spec fn fits(self, c: int) -> bool {
        c <= self.scale@.len() && c <= self.shift@.len()
    }

    /// Scales and shifts each plane.
    pub fn apply(&self, x: &mut Tensor<T>)
        requires
            old(x)@.wf(),
            self.fits(old(x).c as int),
        ensures
            final(x)@.wf(),
            final(x).c == old(x).c && final(x).h == old(x).h && final(x).w == old(x).w,
            forall|m: Arith<T>| #[trigger] computes(m) ==> final(x)@ == self.out(m, old(x)@),
    {
        apply_affine_inplace(x, &self.scale, &self.shift);
    }
}

// ---- deformable convolution -----------------------------------------------------------

/// 2 / (1 + exp(-v)).
pub open spec fn factor_of<T>(m: Arith<T>, v: T) -> T {
    (m.over)((m.bits)(TWO), (m.plus)(m.one(), (m.exponential)((m.negated)(v))))
}

fn factors<T: Scalar>(x: &mut Tensor<T>)
    ensures
        final(x).c == old(x).c && final(x).h == old(x).h && final(x).w == old(x).w,
        final(x)@.data.len() == old(x)@.data.len(),
        forall|m: Arith<T>| #[trigger]
            computes(m) ==> final(x)@ == each(old(x)@, |v: T| factor_of(m, v)),
{
    let src: &Vec<T> = &x.data;
    let n = src.len();
    let elem = |i: usize| -> (v: T)
        requires
            i < n,
        ensures
            forall|m: Arith<T>| #[trigger] computes(m) ==> v == factor_of(m, src@[i as int]),
        {
            T::from_bits(TWO).over(T::from_bits(ONE).plus(src[i].negated().exponential()))
        };
    let out = par_map(n, elem);
    proof {
        assert forall|m: Arith<T>| #[trigger] computes(m) implies out@ == each(
            x@,
            |v: T| factor_of(m, v),
        ).data by {
            let want = each(x@, |v: T| factor_of(m, v)).data;
            assert forall|i: int| 0 <= i < n implies out@[i] == want[i] by {
                assert(out@[i as usize as int] == want[i]);
            }
            assert(out@ =~= want);
        }
    }
    x.data = out;
}

/// A deformable convolution: how far each kernel cell moves and how much it counts are
/// themselves computed by convolutions.
#[derive(Debug)]
pub struct DeformConv<T> {
    pub offset_w: Vec<T>,
    pub offset_b: Vec<T>,
    pub modulator_w: Vec<T>,
    pub modulator_b: Vec<T>,
    pub regular_w: Vec<T>,
    pub k: usize,
    pub pad: usize,
    pub ic: usize,
    pub oc: usize,
}

impl<T: Scalar> DeformConv<T> {
    /// The steps by which a deformable convolution is loaded.
    #[verifier::opaque]
    pub open spec fn steps(prefix: Seq<char>) -> Seq<Step> {
        reads(prefix + ".offset_conv.weight"@) + seq![
            Step::Dims(prefix + ".regular_conv.weight"@, 1),
        ] + seq![Step::Dims(prefix + ".offset_conv.weight"@, 2)] + reads(
            prefix + ".offset_conv.bias"@,
        ) + reads(prefix + ".modulator_conv.weight"@) + reads(prefix + ".modulator_conv.bias"@)
            + reads(prefix + ".regular_conv.weight"@)
    }

    /// The convolution is the one that the weights hold under this prefix.
    pub open spec fn loaded(self, w: Checkpoint, prefix: Seq<char>, k: int, pad: int) -> bool {
        &&& self.k == k
        &&& self.pad == pad
        &&& self.oc == entry(w, prefix + ".regular_conv.weight"@)->0.shape[0]
        &&& self.ic == entry(w, prefix + ".offset_conv.weight"@)->0.shape[1]
        &&& forall|m: Arith<T>| #[trigger]
            computes(m) ==> {
                &&& self.offset_w@ == data(m, w, prefix + ".offset_conv.weight"@)
                &&& self.offset_b@ == data(m, w, prefix + ".offset_conv.bias"@)
                &&& self.modulator_w@ == data(m, w, prefix + ".modulator_conv.weight"@)
                &&& self.modulator_b@ == data(m, w, prefix + ".modulator_conv.bias"@)
                &&& self.regular_w@ == data(m, w, prefix + ".regular_conv.weight"@)
            }
    }

    /// Loads a deformable convolution with a kernel of `k` by `k` cells.
    pub fn load(wts: &Weights, prefix: &str, k: usize, pad: usize) -> (r: Result<
        DeformConv<T>,
        WeightsError,
    >)
        requires
            wts.wf(),
        ensures
            match r {
                Ok(d) => clear(wts@, Self::steps(prefix@)) && d.loaded(
                    wts@,
                    prefix@,
                    k as int,
                    pad as int,
                ),
                Err(e) => fails_with(wts@, Self::steps(prefix@), e@),
            },
    {
        reveal(DeformConv::steps);
        let oname = joined(prefix, ".offset_conv.weight");
        let rname = joined(prefix, ".regular_conv.weight");
        let offset_w: Vec<T> = match wts.get(oname.as_str()) {
            Err(e) => {
                return Err(e);
            },
            Ok(v) => v,
        };
        let oc = match dimension(wts, rname.as_str(), 1, 0) {
            Err(e) => {
                return Err(e);
            },
            Ok(d) => d,
        };
        let ic = match dimension(wts, oname.as_str(), 2, 1) {
            Err(e) => {
                return Err(e);
            },
            Ok(d) => d,
        };
        let offset_b: Vec<T> = match wts.get(joined(prefix, ".offset_conv.bias").as_str()) {
            Err(e) => {
                return Err(e);
            },
            Ok(v) => v,
        };
        let modulator_w: Vec<T> = match wts.get(joined(prefix, ".modulator_conv.weight").as_str()) {
            Err(e) => {
                return Err(e);
            },
            Ok(v) => v,
        };
        let modulator_b: Vec<T> = match wts.get(joined(prefix, ".modulator_conv.bias").as_str()) {
            Err(e) => {
                return Err(e);
            },
            Ok(v) => v,
        };
        let regular_w: Vec<T> = match wts.get(rname.as_str()) {
            Err(e) => {
                return Err(e);
            },
            Ok(v) => v,
        };
        Ok(
            DeformConv {
                offset_w,
                offset_b,
                modulator_w,
                modulator_b,
                regular_w,
                k,
                pad,
                ic,
                oc,
            },
        )
    }

    /// How far the kernel cells move.
    pub open spec fn offsets(self, m: Arith<T>, x: Img<T>) -> Img<T> {
        conv_kxk_spec(
            m,
            x,
            self.offset_w@,
            2 * (self.k * self.k),
            self.ic as int,
            self.k as int,
            Some(self.offset_b@),
        )
    }

    /// How much the kernel cells count.
    pub open spec fn factors(self, m: Arith<T>, x: Img<T>) -> Img<T> {
        each(
            conv_kxk_spec(
                m,
                x,
                self.modulator_w@,
                self.k * self.k,
                self.ic as int,
                self.k as int,
                Some(self.modulator_b@),
            ),
            |v: T| factor_of(m, v),
        )
    }

    /// What the convolution makes of `x`.
    pub open spec fn out(self, m: Arith<T>, x: Img<T>) -> Img<T> {
        deform_spec(
            m,
            x,
            self.offsets(m, x).data,
            self.factors(m, x).data,
            self.regular_w@,
            self.oc as int,
            self.k as int,
            self.pad as int,
        )
    }

    /// The convolution is defined on tensors of these dimensions.
    pub open spec fn fits(self, c: int, h: int, w: int) -> bool {
        let kk = self.k * self.k;
        &&& conv_kxk_fits(
            c,
            h,
            w,
            self.offset_w@.len() as int,
            2 * kk,
            self.ic as int,
            self.k as int,
            Some(self.offset_b@.len() as int),
        )
        &&& conv_kxk_fits(
            c,
            h,
            w,
            self.modulator_w@.len() as int,
            kk,
            self.ic as int,
            self.k as int,
            Some(self.modulator_b@.len() as int),
        )
        &&& deform_fits(
            c,
            h,
            w,
            2 * kk,
            (2 * kk) * (h * w),
            kk * (h * w),
            self.regular_w@.len() as int,
            self.oc as int,
            self.k as int,
        )
    }

    /// Applies the convolution.
    pub fn apply(&self, x: &Tensor<T>) -> (r: Tensor<T>)
        requires
            x@.wf(),
            self.fits(x.c as int, x.h as int, x.w as int),
        ensures
            r@.wf(),
            r.c == self.oc && r.h == x.h && r.w == x.w,
            forall|m: Arith<T>| #[trigger] computes(m) ==> r@ == self.out(m, x@),
    {
        let k = self.k;
        let kk = k * k;
        let offset = conv_kxk(
            x,
            &self.offset_w,
            2 * kk,
            self.ic,
            k,
            Some(self.offset_b.as_slice()),
        );
        let mut modulator = conv_kxk(
            x,
            &self.modulator_w,
            kk,
            self.ic,
            k,
            Some(self.modulator_b.as_slice()),
        );
        factors(&mut modulator);
        deform_conv2d(x, &offset, &modulator, &self.regular_w, self.oc, k, self.pad)
    }
}

// ---- the branches of the pyramid ------------------------------------------------------

/// ReLU of every element.
pub open spec fn relu_all<T>(m: Arith<T>, x: Img<T>) -> Img<T> {
    each(x, |v: T| relu_of(m, v))
}

/// A deformable convolution, batch norm and ReLU.
#[derive(Debug)]
pub struct AsppBranch<T> {
    pub conv: DeformConv<T>,
    pub bn: Affine<T>,
}

impl<T: Scalar> AsppBranch<T> {
    /// The steps by which a branch is loaded.
    #[verifier::opaque]
    pub open spec fn steps(prefix: Seq<char>) -> Seq<Step> {
        DeformConv::<T>::steps(prefix + ".atrous_conv"@) + Affine::<T>::steps(prefix + ".bn"@)
    }

    /// The branch is the one that the weights hold under this prefix.
    pub open spec fn loaded(self, w: Checkpoint, prefix: Seq<char>, k: int, pad: int) -> bool {
        &&& self.conv.loaded(w, prefix + ".atrous_conv"@, k, pad)
        &&& self.bn.loaded(w, prefix + ".bn"@)
    }

    /// Loads a branch.
    pub fn load(wts: &Weights, prefix: &str, k: usize, pad: usize) -> (r: Result<
        AsppBranch<T>,
        WeightsError,
    >)
        requires
            wts.wf(),
        ensures
            match r {
                Ok(b) => clear(wts@, Self::steps(prefix@)) && b.loaded(
                    wts@,
                    prefix@,
                    k as int,
                    pad as int,
                ),
                Err(e) => fails_with(wts@, Self::steps(prefix@), e@),
            },
    {
        reveal(AsppBranch::steps);
        let conv: DeformConv<T> = match DeformConv::load(
            wts,
            joined(prefix, ".atrous_conv").as_str(),
            k,
            pad,
        ) {
            Err(e) => {
                return Err(e);
            },
            Ok(d) => d,
        };
        let bn: Affine<T> = match Affine::load(wts, joined(prefix, ".bn").as_str()) {
            Err(e) => {
                return Err(e);
            },
            Ok(a) => a,
        };
        Ok(AsppBranch { conv, bn })
    }

    /// What the branch makes of `x`.
    pub open spec fn out(self, m: Arith<T>, x: Img<T>) -> Img<T> {
        relu_all(m, self.bn.out(m, self.conv.out(m, x)))
    }

    /// The branch is defined on tensors of these dimensions.
    pub open spec fn fits(self, c: int, h: int, w: int) -> bool {
        self.conv.fits(c, h, w) && self.bn.fits(self.conv.oc as int)
    }

    /// Applies the branch.
    pub fn apply(&self, x: &Tensor<T>) -> (r: Tensor<T>)
        requires
            x@.wf(),
            self.fits(x.c as int, x.h as int, x.w as int),
        ensures
            r@.wf(),
            r.c == self.conv.oc && r.h == x.h && r.w == x.w,
            forall|m: Arith<T>| #[trigger] computes(m) ==> r@ == self.out(m, x@),
    {
        let mut y = self.conv.apply(x);
        self.bn.apply(&mut y);
        relu_inplace(&mut y);
        y
    }
}

// ---- the pyramid ----------------------------------------------------------------------

/// Convolutions of several reaches and the average over the plane, put together and mixed.
#[derive(Debug)]
pub struct AsppDeformable<T> {
    pub aspp1: AsppBranch<T>,
    pub deforms: Vec<AsppBranch<T>>,
    pub gap_conv_w: Vec<T>,
    pub gap_bn: Affine<T>,
    pub conv1_w: Vec<T>,
    pub bn1: Affine<T>,
    pub oc: usize,
}

/// Number of planes that the first `n` branches make together.
pub open spec fn planes_of<T>(branches: Seq<AsppBranch<T>>, n: int) -> int
    decreases n,
{
    if n <= 0 {
        0
    } else {
        planes_of(branches, n - 1) + branches[n - 1].conv.oc
    }
}

impl<T: Scalar> AsppDeformable<T> {
    /// The steps by which the pyramid is loaded.
    #[verifier::opaque]
    pub open spec fn steps(prefix: Seq<char>) -> Seq<Step> {
        AsppBranch::<T>::steps(prefix + ".aspp_deforms.0"@) + AsppBranch::<T>::steps(
            prefix + ".aspp_deforms.1"@,
        ) + AsppBranch::<T>::steps(prefix + ".aspp_deforms.2"@) + AsppBranch::<T>::steps(
            prefix + ".aspp1"@,
        ) + reads(prefix + ".global_avg_pool.1.weight"@) + Affine::<T>::steps(
            prefix + ".global_avg_pool.2"@,
        ) + reads(prefix + ".conv1.weight"@) + Affine::<T>::steps(prefix + ".bn1"@)
    }

    /// The pyramid is the one that the weights hold under this prefix.
    pub open spec fn loaded(self, w: Checkpoint, prefix: Seq<char>, oc: int) -> bool {
        &&& self.deforms@.len() == 3
        &&& self.deforms@[0].loaded(w, prefix + ".aspp_deforms.0"@, 1, 0)
        &&& self.deforms@[1].loaded(w, prefix + ".aspp_deforms.1"@, 3, 1)
        &&& self.deforms@[2].loaded(w, prefix + ".aspp_deforms.2"@, 7, 3)
        &&& self.aspp1.loaded(w, prefix + ".aspp1"@, 1, 0)
        &&& self.gap_bn.loaded(w, prefix + ".global_avg_pool.2"@)
        &&& self.bn1.loaded(w, prefix + ".bn1"@)
        &&& self.oc == oc
        &&& forall|m: Arith<T>| #[trigger]
            computes(m) ==> {
                &&& self.gap_conv_w@ == data(m, w, prefix + ".global_avg_pool.1.weight"@)
                &&& self.conv1_w@ == data(m, w, prefix + ".conv1.weight"@)
            }
    }

    /// Loads the pyramid, which makes `oc` planes.
    pub fn load(wts: &Weights, prefix: &str, _ic: usize, oc: usize) -> (r: Result<
        AsppDeformable<T>,
        WeightsError,
    >)
        requires
            wts.wf(),
        ensures
            match r {
                Ok(v) => clear(wts@, Self::steps(prefix@)) && v.loaded(wts@, prefix@, oc as int),
                Err(e) => fails_with(wts@, Self::steps(prefix@), e@),
            },
    {
        reveal(AsppDeformable::steps);
        let d0: AsppBranch<T> = match AsppBranch::load(
            wts,
            joined(prefix, ".aspp_deforms.0").as_str(),
            1,
            0,
        ) {
            Err(e) => {
                return Err(e);
            },
            Ok(v) => v,
        };
        let d1: AsppBranch<T> = match AsppBranch::load(
            wts,
            joined(prefix, ".aspp_deforms.1").as_str(),
            3,
            1,
        ) {
            Err(e) => {
                return Err(e);
            },
            Ok(v) => v,
        };
        let d2: AsppBranch<T> = match AsppBranch::load(
            wts,
            joined(prefix, ".aspp_deforms.2").as_str(),
            7,
            3,
        ) {
            Err(e) => {
                return Err(e);
            },
            Ok(v) => v,
        };
        let aspp1: AsppBranch<T> = match AsppBranch::load(
            wts,
            joined(prefix, ".aspp1").as_str(),
            1,
            0,
        ) {
            Err(e) => {
                return Err(e);
            },
            Ok(v) => v,
        };
        let gap_conv_w: Vec<T> = match wts.get(
            joined(prefix, ".global_avg_pool.1.weight").as_str()
        ) {
            Err(e) => {
                return Err(e);
            },
            Ok(v) => v,
        };
        let gap_bn: Affine<T> = match Affine::load(
            wts,
            joined(prefix, ".global_avg_pool.2").as_str(),
        ) {
            Err(e) => {
                return Err(e);
            },
            Ok(v) => v,
        };
        let conv1_w: Vec<T> = match wts.get(joined(prefix, ".conv1.weight").as_str()) {
            Err(e) => {
                return Err(e);
            },
            Ok(v) => v,
        };
        let bn1: Affine<T> = match Affine::load(wts, joined(prefix, ".bn1").as_str()) {
            Err(e) => {
                return Err(e);
            },
            Ok(v) => v,
        };
        let deforms = vec![d0, d1, d2];
        Ok(AsppDeformable { aspp1, deforms, gap_conv_w, gap_bn, conv1_w, bn1, oc })
    }

    /// Number of planes that the average is mapped to, for `c` planes.
    pub open spec fn gap_planes(self, c: int) -> int {
        self.gap_conv_w@.len() as int / c
    }

    /// The average over each plane, mapped and spread over the whole plane.
    pub open spec fn gap(self, m: Arith<T>, x: Img<T>) -> Img<T> {
        let g = Img { c: x.c, h: 1, w: 1, data: pooled(m, x) };
        let mapped = conv1x1_spec(m, g, self.gap_conv_w@, self.gap_planes(x.c), x.c, None);
        resize_spec(m, relu_all(m, self.gap_bn.out(m, mapped)), x.h, x.w, true)
    }

    /// What the branches make of `x`.
    pub open spec fn branches(self, m: Arith<T>, x: Img<T>) -> Seq<Img<T>> {
        Seq::new(
            self.deforms@.len() + 2,
            |i: int|
                if i == 0 {
                    self.aspp1.out(m, x)
                } else if i <= self.deforms@.len() {
                    self.deforms@[i - 1].out(m, x)
                } else {
                    self.gap(m, x)
                },
        )
    }

    /// What the pyramid makes of `x`.
    pub open spec fn out(self, m: Arith<T>, x: Img<T>) -> Img<T> {
        let cat = cat_spec(self.branches(m, x));
        relu_all(
            m,
            self.bn1.out(m, conv1x1_spec(m, cat, self.conv1_w@, self.oc as int, cat.c, None)),
        )
    }

    /// Number of planes of all branches together, for `c` planes.
    pub open spec fn mid_planes(self, c: int) -> int {
        self.aspp1.conv.oc + planes_of(self.deforms@, self.deforms@.len() as int)
            + self.gap_planes(c)
    }

    /// The pyramid is defined on tensors of these dimensions.
    pub open spec fn fits(self, c: int, h: int, w: int) -> bool {
        &&& 0 < c
        &&& self.aspp1.fits(c, h, w)
        &&& forall|i: int|
            0 <= i < self.deforms@.len() ==> (#[trigger] self.deforms@[i]).fits(c, h, w)
        &&& conv1x1_fits(
            c,
            1,
            1,
            self.gap_conv_w@.len() as int,
            self.gap_planes(c),
            c,
            None,
        )
        &&& self.gap_bn.fits(self.gap_planes(c))
        &&& resize_fits(self.gap_planes(c), 1, 1, h, w)
        &&& dims_fit(self.mid_planes(c), h, w)
        &&& conv1x1_fits(
            self.mid_planes(c),
            h,
            w,
            self.conv1_w@.len() as int,
            self.oc as int,
            self.mid_planes(c),
            None,
        )
        &&& self.bn1.fits(self.oc as int)
    }

    fn apply_gap(&self, x: &Tensor<T>) -> (r: Tensor<T>)
        requires
            x@.wf(),
            self.fits(x.c as int, x.h as int, x.w as int),
        ensures
            r@.wf(),
            r.c == self.gap_planes(x.c as int) && r.h == x.h && r.w == x.w,
            forall|m: Arith<T>| #[trigger] computes(m) ==> r@ == self.gap(m, x@),
    {
        let means = global_avg_pool(x);
        let gap_ic = means.len();
        let gap_oc = self.gap_conv_w.len() / gap_ic;
        let g = Tensor::from_vec(gap_ic, 1, 1, means);
        let mut y = conv1x1(&g, &self.gap_conv_w, gap_oc, gap_ic, None);
        self.gap_bn.apply(&mut y);
        relu_inplace(&mut y);
        resize_bilinear(&y, x.h, x.w, true)
    }

    fn apply_branches(&self, x: &Tensor<T>) -> (r: Vec<Tensor<T>>)
        requires
            x@.wf(),
            self.fits(x.c as int, x.h as int, x.w as int),
        ensures
            cat_fits(imgs(r@)),
            imgs(r@)[0].h == x.h && imgs(r@)[0].w == x.w,
            cat_c(imgs(r@), r@.len() as int) == self.mid_planes(x.c as int),
            forall|m: Arith<T>| #[trigger] computes(m) ==> imgs(r@) == self.branches(m, x@),
    {
        let mut parts: Vec<Tensor<T>> = Vec::new();
        parts.push(self.aspp1.apply(x));
        let mut i: usize = 0;
        proof {
            reveal_with_fuel(cat_c, 2);
            assert(imgs(parts@)[0] == parts@[0]@);
        }
        while i < self.deforms.len()
            invariant
                i <= self.deforms@.len(),
                x@.wf(),
                self.fits(x.c as int, x.h as int, x.w as int),
                parts@.len() == i + 1,
                forall|j: int|
                    0 <= j < parts@.len() ==> (#[trigger] parts@[j])@.wf() && parts@[j].h == x.h
                        && parts@[j].w == x.w,
                cat_c(imgs(parts@), parts@.len() as int) == self.aspp1.conv.oc + planes_of(
                    self.deforms@,
                    i as int,
                ),
                forall|m: Arith<T>| #[trigger]
                    computes(m) ==> forall|j: int|
                        0 <= j < parts@.len() ==> (#[trigger] parts@[j])@ == self.branches(
                            m,
                            x@,
                        )[j],
            decreases self.deforms@.len() - i,
        {
            let ghost was = parts@;
            let part = self.deforms[i].apply(x);
            parts.push(part);
            proof {
                lemma_cat_c_same(imgs(was), imgs(parts@), was.len() as int);
            }
            i += 1;
        }
        let ghost was = parts@;
        let gap = self.apply_gap(x);
        parts.push(gap);
        proof {
            lemma_cat_c_same(imgs(was), imgs(parts@), was.len() as int);
            let v = imgs(parts@);
            assert forall|j: int| 0 <= j < v.len() implies (#[trigger] v[j]).wf() && v[j].h
                == v[0].h && v[j].w == v[0].w by {
                assert(v[j] == parts@[j]@);
                assert(v[0] == parts@[0]@);
            }
            assert forall|m: Arith<T>| #[trigger] computes(m) implies imgs(parts@)
                == self.branches(m, x@) by {
                let want = self.branches(m, x@);
                assert forall|j: int| 0 <= j < v.len() implies v[j] == want[j] by {
                    assert(v[j] == parts@[j]@);
                    if j < was.len() {
                        assert(parts@[j] == was[j]);
                    }
                }
                assert(v =~= want);
            }
        }
        parts
    }

    /// Applies the pyramid.
    pub fn apply(&self, x: &Tensor<T>) -> (r: Tensor<T>)
        requires
            x@.wf(),
            self.fits(x.c as int, x.h as int, x.w as int),
        ensures
            r@.wf(),
            r.c == self.oc && r.h == x.h && r.w == x.w,
            forall|m: Arith<T>| #[trigger] computes(m) ==> r@ == self.out(m, x@),
    {
        let parts = self.apply_branches(x);
        let cat = cat_all(&parts);
        let mut y = conv1x1(&cat, &self.conv1_w, self.oc, cat.c, None);
        self.bn1.apply(&mut y);
        relu_inplace(&mut y);
        y
    }
}

/// The number of planes of the first parts does not depend on the parts behind them.
proof fn lemma_cat_c_same<T>(a: Seq<Img<T>>, b: Seq<Img<T>>, n: int)
    requires
        n <= a.len(),
        n <= b.len(),
        forall|i: int| 0 <= i < n ==> a[i] == b[i],
    ensures
        cat_c(a, n) == cat_c(b, n),
    decreases n,
{
    if n > 0 {
        lemma_cat_c_same(a, b, n - 1);
    }
}

// ---- decoder blocks -------------------------------------------------------------------

/// A convolution, batch norm and ReLU, the pyramid, and a convolution and batch norm.
#[derive(Debug)]
pub struct BasicDecBlk<T> {
    pub conv_in_w: Vec<T>,
    pub conv_in_b: Vec<T>,
    pub bn_in: Affine<T>,
    pub aspp: AsppDeformable<T>,
    pub conv_out_w: Vec<T>,
    pub conv_out_b: Vec<T>,
    pub bn_out: Affine<T>,
    pub ic: usize,
    pub ic_mid: usize,
    pub oc: usize,
}

impl<T: Scalar> BasicDecBlk<T> {
    /// The steps by which a block is loaded.
    #[verifier::opaque]
    pub open spec fn steps(prefix: Seq<char>) -> Seq<Step> {
        seq![Step::Dims(prefix + ".conv_in.weight"@, 0)] + seq![
            Step::Dims(prefix + ".conv_out.weight"@, 0),
        ] + reads(prefix + ".conv_in.weight"@) + reads(prefix + ".conv_in.bias"@) + Affine::<
            T,
        >::steps(prefix + ".bn_in"@) + seq![Step::Dims(prefix + ".conv_in.weight"@, 2)]
            + AsppDeformable::<T>::steps(prefix + ".dec_att"@) + reads(
            prefix + ".conv_out.weight"@,
        ) + reads(prefix + ".conv_out.bias"@) + Affine::<T>::steps(prefix + ".bn_out"@) + seq![
            Step::Dims(prefix + ".conv_out.weight"@, 1),
        ]
    }

    /// The block is the one that the weights hold under this prefix.
    pub open spec fn loaded(self, w: Checkpoint, prefix: Seq<char>) -> bool {
        &&& self.ic == entry(w, prefix + ".conv_in.weight"@)->0.shape[1]
        &&& self.ic_mid == entry(w, prefix + ".conv_in.weight"@)->0.shape[0]
        &&& self.oc == entry(w, prefix + ".conv_out.weight"@)->0.shape[0]
        &&& self.bn_in.loaded(w, prefix + ".bn_in"@)
        &&& self.bn_out.loaded(w, prefix + ".bn_out"@)
        &&& self.aspp.loaded(w, prefix + ".dec_att"@, self.ic_mid as int)
        &&& forall|m: Arith<T>| #[trigger]
            computes(m) ==> {
                &&& self.conv_in_w@ == data(m, w, prefix + ".conv_in.weight"@)
                &&& self.conv_in_b@ == data(m, w, prefix + ".conv_in.bias"@)
                &&& self.conv_out_w@ == data(m, w, prefix + ".conv_out.weight"@)
                &&& self.conv_out_b@ == data(m, w, prefix + ".conv_out.bias"@)
            }
    }

    /// Loads a block.
    pub fn load(wts: &Weights, prefix: &str) -> (r: Result<BasicDecBlk<T>, WeightsError>)
        requires
            wts.wf(),
        ensures
            match r {
                Ok(v) => clear(wts@, Self::steps(prefix@)) && v.loaded(wts@, prefix@),
                Err(e) => fails_with(wts@, Self::steps(prefix@), e@),
            },
    {
        reveal(BasicDecBlk::steps);
        let iname = joined(prefix, ".conv_in.weight");
        let oname = joined(prefix, ".conv_out.weight");
        if let Err(e) = wts.shape(iname.as_str()) {
            return Err(e);
        }
        if let Err(e) = wts.shape(oname.as_str()) {
            return Err(e);
        }
        let conv_in_w: Vec<T> = match wts.get(iname.as_str()) {
            Err(e) => {
                return Err(e);
            },
            Ok(v) => v,
        };
        let conv_in_b: Vec<T> = match wts.get(joined(prefix, ".conv_in.bias").as_str()) {
            Err(e) => {
                return Err(e);
            },
            Ok(v) => v,
        };
        let bn_in: Affine<T> = match Affine::load(wts, joined(prefix, ".bn_in").as_str()) {
            Err(e) => {
                return Err(e);
            },
            Ok(v) => v,
        };
        let ic: usize = match dimension(wts, iname.as_str(), 2, 1) {
            Err(e) => {
                return Err(e);
            },
            Ok(v) => v,
        };
        let ic_mid: usize = match dimension(wts, iname.as_str(), 2, 0) {
            Err(e) => {
                return Err(e);
            },
            Ok(v) => v,
        };
        let aspp: AsppDeformable<T> = match AsppDeformable::load(
            wts,
            joined(prefix, ".dec_att").as_str(),
            ic,
            ic_mid,
        ) {
            Err(e) => {
                return Err(e);
            },
            Ok(v) => v,
        };
        let conv_out_w: Vec<T> = match wts.get(oname.as_str()) {
            Err(e) => {
                return Err(e);
            },
            Ok(v) => v,
        };
        let conv_out_b: Vec<T> = match wts.get(joined(prefix, ".conv_out.bias").as_str()) {
            Err(e) => {
                return Err(e);
            },
            Ok(v) => v,
        };
        let bn_out: Affine<T> = match Affine::load(wts, joined(prefix, ".bn_out").as_str()) {
            Err(e) => {
                return Err(e);
            },
            Ok(v) => v,
        };
        let oc: usize = match dimension(wts, oname.as_str(), 1, 0) {
            Err(e) => {
                return Err(e);
            },
            Ok(v) => v,
        };
        Ok(
            BasicDecBlk {
                conv_in_w,
                conv_in_b,
                bn_in,
                aspp,
                conv_out_w,
                conv_out_b,
                bn_out,
                ic,
                ic_mid,
                oc,
            },
        )
    }

    /// What goes into the pyramid.
    pub open spec fn middle(self, m: Arith<T>, x: Img<T>) -> Img<T> {
        relu_all(
            m,
            self.bn_in.out(
                m,
                conv_kxk_spec(
                    m,
                    x,
                    self.conv_in_w@,
                    self.ic_mid as int,
                    self.ic as int,
                    3,
                    Some(self.conv_in_b@),
                ),
            ),
        )
    }

    /// What the block makes of `x`.
    pub open spec fn out(self, m: Arith<T>, x: Img<T>) -> Img<T> {
        self.bn_out.out(
            m,
            conv_kxk_spec(
                m,
                self.aspp.out(m, self.middle(m, x)),
                self.conv_out_w@,
                self.oc as int,
                self.ic_mid as int,
                3,
                Some(self.conv_out_b@),
            ),
        )
    }

    /// The block is defined on tensors of these dimensions.
    pub open spec fn fits(self, c: int, h: int, w: int) -> bool {
        &&& conv_kxk_fits(
            c,
            h,
            w,
            self.conv_in_w@.len() as int,
            self.ic_mid as int,
            self.ic as int,
            3,
            Some(self.conv_in_b@.len() as int),
        )
        &&& self.bn_in.fits(self.ic_mid as int)
        &&& self.aspp.fits(self.ic_mid as int, h, w)
        &&& conv_kxk_fits(
            self.aspp.oc as int,
            h,
            w,
            self.conv_out_w@.len() as int,
            self.oc as int,
            self.ic_mid as int,
            3,
            Some(self.conv_out_b@.len() as int),
        )
        &&& self.bn_out.fits(self.oc as int)
    }

    /// Applies the block.
    pub fn apply(&self, x: &Tensor<T>) -> (r: Tensor<T>)
        requires
            x@.wf(),
            self.fits(x.c as int, x.h as int, x.w as int),
        ensures
            r@.wf(),
            r.c == self.oc && r.h == x.h && r.w == x.w,
            forall|m: Arith<T>| #[trigger] computes(m) ==> r@ == self.out(m, x@),
    {
        let mut y = conv_kxk(
            x,
            &self.conv_in_w,
            self.ic_mid,
            self.ic,
            3,
            Some(self.conv_in_b.as_slice()),
        );
        self.bn_in.apply(&mut y);
        relu_inplace(&mut y);
        let z = self.aspp.apply(&y);
        let mut out = conv_kxk(
            &z,
            &self.conv_out_w,
            self.oc,
            self.ic_mid,
            3,
            Some(self.conv_out_b.as_slice()),
        );
        self.bn_out.apply(&mut out);
        out
    }
}

/// Number of planes between the two convolutions on the image.
pub const IPT_PLANES: usize = 64;

/// Two convolutions, which the image goes through at each scale of the decoder.
#[derive(Debug)]
pub struct SimpleConvs<T> {
    pub c1w: Vec<T>,
    pub c1b: Vec<T>,
    pub cow: Vec<T>,
    pub cob: Vec<T>,
    pub ic: usize,
    pub oc: usize,
}

impl<T: Scalar> SimpleConvs<T> {
    /// The steps by which the convolutions are loaded.
    #[verifier::opaque]
    pub open spec fn steps(prefix: Seq<char>) -> Seq<Step> {
        reads(prefix + ".conv1.weight"@) + reads(prefix + ".conv1.bias"@) + reads(
            prefix + ".conv_out.weight"@,
        ) + reads(prefix + ".conv_out.bias"@) + seq![Step::Dims(prefix + ".conv1.weight"@, 2)]
            + seq![Step::Dims(prefix + ".conv_out.weight"@, 1)]
    }

    /// The convolutions are those that the weights hold under this prefix.
    pub open spec fn loaded(self, w: Checkpoint, prefix: Seq<char>) -> bool {
        &&& self.ic == entry(w, prefix + ".conv1.weight"@)->0.shape[1]
        &&& self.oc == entry(w, prefix + ".conv_out.weight"@)->0.shape[0]
        &&& forall|m: Arith<T>| #[trigger]
            computes(m) ==> {
                &&& self.c1w@ == data(m, w, prefix + ".conv1.weight"@)
                &&& self.c1b@ == data(m, w, prefix + ".conv1.bias"@)
                &&& self.cow@ == data(m, w, prefix + ".conv_out.weight"@)
                &&& self.cob@ == data(m, w, prefix + ".conv_out.bias"@)
            }
    }

    /// Loads the convolutions.
    pub fn load(wts: &Weights, prefix: &str) -> (r: Result<SimpleConvs<T>, WeightsError>)
        requires
            wts.wf(),
        ensures
            match r {
                Ok(v) => clear(wts@, Self::steps(prefix@)) && v.loaded(wts@, prefix@),
                Err(e) => fails_with(wts@, Self::steps(prefix@), e@),
            },
    {
        reveal(SimpleConvs::steps);
        let c1name = joined(prefix, ".conv1.weight");
        let coname = joined(prefix, ".conv_out.weight");
        let c1w: Vec<T> = match wts.get(c1name.as_str()) {
            Err(e) => {
                return Err(e);
            },
            Ok(v) => v,
        };
        let c1b: Vec<T> = match wts.get(joined(prefix, ".conv1.bias").as_str()) {
            Err(e) => {
                return Err(e);
            },
            Ok(v) => v,
        };
        let cow: Vec<T> = match wts.get(coname.as_str()) {
            Err(e) => {
                return Err(e);
            },
            Ok(v) => v,
        };
        let cob: Vec<T> = match wts.get(joined(prefix, ".conv_out.bias").as_str()) {
            Err(e) => {
                return Err(e);
            },
            Ok(v) => v,
        };
        let ic: usize = match dimension(wts, c1name.as_str(), 2, 1) {
            Err(e) => {
                return Err(e);
            },
            Ok(v) => v,
        };
        let oc: usize = match dimension(wts, coname.as_str(), 1, 0) {
            Err(e) => {
                return Err(e);
            },
            Ok(v) => v,
        };
        Ok(SimpleConvs { c1w, c1b, cow, cob, ic, oc })
    }

    /// What the convolutions make of `x`.
    pub open spec fn out(self, m: Arith<T>, x: Img<T>) -> Img<T> {
        let y = conv_kxk_spec(m, x, self.c1w@, 64, self.ic as int, 3, Some(self.c1b@));
        conv_kxk_spec(m, y, self.cow@, self.oc as int, 64, 3, Some(self.cob@))
    }

    /// The convolutions are defined on tensors of these dimensions.
    pub open spec fn fits(self, c: int, h: int, w: int) -> bool {
        &&& conv_kxk_fits(
            c,
            h,
            w,
            self.c1w@.len() as int,
            64,
            self.ic as int,
            3,
            Some(self.c1b@.len() as int),
        )
        &&& conv_kxk_fits(
            64,
            h,
            w,
            self.cow@.len() as int,
            self.oc as int,
            64,
            3,
            Some(self.cob@.len() as int),
        )
    }

    /// Applies the convolutions.
    pub fn apply(&self, x: &Tensor<T>) -> (r: Tensor<T>)
        requires
            x@.wf(),
            self.fits(x.c as int, x.h as int, x.w as int),
        ensures
            r@.wf(),
            r.c == self.oc && r.h == x.h && r.w == x.w,
            forall|m: Arith<T>| #[trigger] computes(m) ==> r@ == self.out(m, x@),
    {
        let y = conv_kxk(x, &self.c1w, IPT_PLANES, self.ic, 3, Some(self.c1b.as_slice()));
        conv_kxk(&y, &self.cow, self.oc, IPT_PLANES, 3, Some(self.cob.as_slice()))
    }
}

/// Number of planes that attention over the plane is computed from.
pub const GDT_PLANES: usize = 16;

/// Attention over the plane: how much each position of a feature map counts.
#[derive(Debug)]
pub struct GdtConv<T> {
    pub w: Vec<T>,
    pub b: Vec<T>,
    pub bn: Affine<T>,
    pub attn_w: Vec<T>,
    pub attn_b: Vec<T>,
    pub ic: usize,
}

/// The prefix of the attention of a stage.
pub open spec fn gdt_prefix(stage: int) -> Seq<char> {
    "decoder.gdt_convs_"@ + number_text(stage)
}

impl<T: Scalar> GdtConv<T> {
    /// The steps by which attention is loaded.
    #[verifier::opaque]
    pub open spec fn steps(stage: int) -> Seq<Step> {
        reads(gdt_prefix(stage) + ".0.weight"@) + reads(gdt_prefix(stage) + ".0.bias"@) + Affine::<
            T,
        >::steps(gdt_prefix(stage) + ".1"@) + reads(
            "decoder.gdt_convs_attn_"@ + number_text(stage) + ".0.weight"@,
        ) + reads("decoder.gdt_convs_attn_"@ + number_text(stage) + ".0.bias"@) + seq![
            Step::Dims(gdt_prefix(stage) + ".0.weight"@, 2),
        ]
    }

    /// Attention is the one that the weights hold for this stage.
    pub open spec fn loaded(self, w: Checkpoint, stage: int) -> bool {
        &&& self.ic == entry(w, gdt_prefix(stage) + ".0.weight"@)->0.shape[1]
        &&& self.bn.loaded(w, gdt_prefix(stage) + ".1"@)
        &&& forall|m: Arith<T>| #[trigger]
            computes(m) ==> {
                &&& self.w@ == data(m, w, gdt_prefix(stage) + ".0.weight"@)
                &&& self.b@ == data(m, w, gdt_prefix(stage) + ".0.bias"@)
                &&& self.attn_w@ == data(
                    m,
                    w,
                    "decoder.gdt_convs_attn_"@ + number_text(stage) + ".0.weight"@,
                )
                &&& self.attn_b@ == data(
                    m,
                    w,
                    "decoder.gdt_convs_attn_"@ + number_text(stage) + ".0.bias"@,
                )
            }
    }

    /// Loads the attention of a stage.
    pub fn load(wts: &Weights, stage: usize) -> (r: Result<GdtConv<T>, WeightsError>)
        requires
            wts.wf(),
        ensures
            match r {
                Ok(v) => clear(wts@, Self::steps(stage as int)) && v.loaded(wts@, stage as int),
                Err(e) => fails_with(wts@, Self::steps(stage as int), e@),
            },
    {
        reveal(GdtConv::steps);
        let prefix_text = numbered("decoder.gdt_convs_", stage, "");
        proof {
            reveal_strlit("");
            assert(prefix_text@ =~= gdt_prefix(stage as int));
        }
        let prefix = prefix_text.as_str();
        let wname = joined(prefix, ".0.weight");
        let w: Vec<T> = match wts.get(wname.as_str()) {
            Err(e) => {
                return Err(e);
            },
            Ok(v) => v,
        };
        let b: Vec<T> = match wts.get(joined(prefix, ".0.bias").as_str()) {
            Err(e) => {
                return Err(e);
            },
            Ok(v) => v,
        };
        let bn: Affine<T> = match Affine::load(wts, joined(prefix, ".1").as_str()) {
            Err(e) => {
                return Err(e);
            },
            Ok(v) => v,
        };
        let attn_w: Vec<T> = match wts.get(
            numbered("decoder.gdt_convs_attn_", stage, ".0.weight").as_str()
        ) {
            Err(e) => {
                return Err(e);
            },
            Ok(v) => v,
        };
        let attn_b: Vec<T> = match wts.get(
            numbered("decoder.gdt_convs_attn_", stage, ".0.bias").as_str()
        ) {
            Err(e) => {
                return Err(e);
            },
            Ok(v) => v,
        };
        let ic: usize = match dimension(wts, wname.as_str(), 2, 1) {
            Err(e) => {
                return Err(e);
            },
            Ok(v) => v,
        };
        Ok(GdtConv { w, b, bn, attn_w, attn_b, ic })
    }

    /// How much each position of `p` counts.
    pub open spec fn out(self, m: Arith<T>, p: Img<T>) -> Img<T> {
        let g = relu_all(
            m,
            self.bn.out(m, conv_kxk_spec(m, p, self.w@, 16, self.ic as int, 3, Some(self.b@))),
        );
        each(
            conv1x1_spec(m, g, self.attn_w@, 1, 16, Some(self.attn_b@)),
            |v: T| sigmoid_of(m, v),
        )
    }

    /// Attention is defined on tensors of these dimensions.
    pub open spec fn fits(self, c: int, h: int, w: int) -> bool {
        &&& conv_kxk_fits(
            c,
            h,
            w,
            self.w@.len() as int,
            16,
            self.ic as int,
            3,
            Some(self.b@.len() as int),
        )
        &&& self.bn.fits(16)
        &&& conv1x1_fits(
            16,
            h,
            w,
            self.attn_w@.len() as int,
            1,
            16,
            Some(self.attn_b@.len() as int),
        )
    }

    /// Computes how much each position of `p` counts.
    pub fn apply(&self, p: &Tensor<T>) -> (r: Tensor<T>)
        requires
            p@.wf(),
            self.fits(p.c as int, p.h as int, p.w as int),
        ensures
            r@.wf(),
            r.c == 1 && r.h == p.h && r.w == p.w,
            forall|m: Arith<T>| #[trigger] computes(m) ==> r@ == self.out(m, p@),
    {
        let mut g = conv_kxk(p, &self.w, GDT_PLANES, self.ic, 3, Some(self.b.as_slice()));
        self.bn.apply(&mut g);
        relu_inplace(&mut g);
        let mut a = conv1x1(&g, &self.attn_w, 1, GDT_PLANES, Some(self.attn_b.as_slice()));
        sigmoid_inplace(&mut a);
        a
    }
}

} // verus!
