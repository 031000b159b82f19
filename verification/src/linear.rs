//! Layers on rows of features: linear maps, layer norm, and the two-layer perceptron.

use crate::conv::{bias_fits, biased};
use crate::index::{lemma_flat, lemma_split};
use crate::loading::{clear, fails_with, group_steps, reads, Step};
use crate::parallel::par_map;
use crate::pointwise::{each, gelu_exact_inplace, gelu_of, layernorm_slice, layernorm_spec};
use crate::scalar::{computes, Arith, Scalar};
use crate::tensor::{assemble, Tensor};
use crate::text::text;
use crate::weights::{data, data_problem, entry, Checkpoint, Problem, Weights, WeightsError};
use crate::words::{joined, trimmed_tail, without_tail};
use vstd::prelude::*;

verus! {

broadcast use group_steps;

/// Bit pattern of 0.00001, which layer norm adds to a variance.
pub const LN_EPS: u32 = 0x3727_c5ac;

// ---- linear maps ----------------------------------------------------------------------

/// The products of the first `n` elements of `w` from `i` on and of `x` from `j` on, added
/// up from zero.
pub open spec fn dot<T>(m: Arith<T>, w: Seq<T>, i: int, x: Seq<T>, j: int, n: int) -> T
    decreases n,
{
    if n <= 0 {
        m.zero()
    } else {
        (m.plus)(dot(m, w, i, x, j, n - 1), (m.times)(w[i + n - 1], x[j + n - 1]))
    }
}

/// A linear map of every complete row of `ic` elements of `x` to `oc` elements.
pub open spec fn linear_spec<T>(
    m: Arith<T>,
    x: Seq<T>,
    w: Seq<T>,
    b: Option<Seq<T>>,
    ic: int,
    oc: int,
) -> Seq<T> {
    Seq::new(
        ((x.len() as int / ic) * oc) as nat,
        |i: int| biased(m, dot(m, w, (i % oc) * ic, x, (i / oc) * ic, ic), b, i % oc),
    )
}

/// The lengths on which a linear map is defined.
pub open spec fn linear_fits(xlen: int, wlen: int, blen: Option<int>, ic: int, oc: int) -> bool {
    &&& 0 < ic
    &&& 0 < oc
    &&& (xlen / ic) * oc <= usize::MAX
    &&& 0 < xlen / ic ==> oc * ic <= wlen && bias_fits(oc, blen)
}

/// A linear map with an optional bias.
#[derive(Debug)]
pub struct Linear<T> {
    /// The weights of the first output, then those of the second, and so on.
    pub w: Vec<T>,
    pub b: Option<Vec<T>>,
    pub ic: usize,
    pub oc: usize,
}

/// The contents of an optional vector.
pub open spec fn held<T>(b: Option<Vec<T>>) -> Option<Seq<T>> {
    match b {
        Some(v) => Some(v@),
        None => None,
    }
}

/// The length of an optional vector.
pub open spec fn held_len<T>(b: Option<Vec<T>>) -> Option<int> {
    match b {
        Some(v) => Some(v@.len() as int),
        None => None,
    }
}

/// `v` is output row `r` of a linear map.
spec fn is_linear_row<T: Scalar>(
    v: Seq<T>,
    x: Seq<T>,
    w: Seq<T>,
    b: Option<Seq<T>>,
    ic: int,
    oc: int,
    r: int,
) -> bool {
    &&& v.len() == oc
    &&& forall|m: Arith<T>| #[trigger]
        computes(m) ==> forall|o: int|
            0 <= o < oc ==> #[trigger] v[o] == biased(m, dot(m, w, o * ic, x, r * ic, ic), b, o)
}

/// The name of the bias that belongs to a weight.
pub open spec fn bias_name(name: Seq<char>) -> Seq<char> {
    without_tail(name, ".weight"@) + ".bias"@
}

impl<T: Scalar> Linear<T> {
    /// The steps by which a linear map is loaded.
    #[verifier::opaque]
    pub open spec fn steps(name: Seq<char>) -> Seq<Step> {
        seq![Step::Matrix(name)] + reads(name)
    }

    /// The linear map is the one that the weights hold under this name.
    pub open spec fn loaded(self, w: Checkpoint, name: Seq<char>) -> bool {
        &&& self.oc == entry(w, name)->0.shape[0]
        &&& self.ic == entry(w, name)->0.shape[1]
        &&& forall|m: Arith<T>| #[trigger] computes(m) ==> self.w@ == data(m, w, name)
        &&& match self.b {
            Some(b) => data_problem(w, bias_name(name)) is None && forall|m: Arith<T>| #[trigger]
                computes(m) ==> b@ == data(m, w, bias_name(name)),
            None => data_problem(w, bias_name(name)) is Some,
        }
    }

    /// Loads the linear map whose weights have this name. The bias is optional.
    pub fn load(wts: &Weights, name: &str) -> (r: Result<Linear<T>, WeightsError>)
        requires
            wts.wf(),
        ensures
            match r {
                Ok(l) => clear(wts@, Self::steps(name@)) && l.loaded(wts@, name@),
                Err(e) => fails_with(wts@, Self::steps(name@), e@),
            },
    {
        reveal(Linear::steps);
        let shape = match wts.shape(name) {
            Err(e) => {
                return Err(e);
            },
            Ok(s) => s,
        };
        if shape.len() != 2 {
            return Err(Problem::NotMatrix { name: text(name) });
        }
        let oc = shape[0];
        let ic = shape[1];
        let w: Vec<T> = match wts.get(name) {
            Err(e) => {
                return Err(e);
            },
            Ok(w) => w,
        };
        let bname = joined(trimmed_tail(name, ".weight"), ".bias");
        let got: Result<Vec<T>, WeightsError> = wts.get(bname.as_str());
        let b = match got {
            Ok(v) => Some(v),
            Err(e) => None,
        };
        Ok(Linear { w, b, ic, oc })
    }

    /// The map applied to every complete row.
    pub open spec fn out(self, m: Arith<T>, x: Seq<T>) -> Seq<T> {
        linear_spec(m, x, self.w@, held(self.b), self.ic as int, self.oc as int)
    }

    /// The map is defined on `n` elements.
    pub open spec fn fits(self, n: int) -> bool {
        linear_fits(n, self.w@.len() as int, held_len(self.b), self.ic as int, self.oc as int)
    }

    /// Number of elements that the map makes of `n`.
    pub open spec fn out_len(self, n: int) -> int {
        (n / self.ic as int) * self.oc
    }

    fn row(&self, x: &[T], rows: usize, r: usize) -> (v: Vec<T>)
        requires
            self.fits(x@.len() as int),
            rows == x@.len() as int / self.ic as int,
            r < rows,
        ensures
            is_linear_row(
                v@,
                x@,
                self.w@,
                held(self.b),
                self.ic as int,
                self.oc as int,
                r as int,
            ),
    {
        let ic = self.ic;
        let oc = self.oc;
        proof {
            vstd::arithmetic::div_mod::lemma_fundamental_div_mod(x@.len() as int, ic as int);
            assert(ic * rows == rows * ic) by (nonlinear_arith);
            assert(x@.len() == x.len());
            assert(self.w@.len() == self.w.len());
        }
        let mut v: Vec<T> = Vec::with_capacity(oc);
        let mut o: usize = 0;
        while o < oc
            invariant
                o <= oc,
                r < rows,
                rows * ic <= x.len(),
                oc * ic <= self.w.len(),
                ic == self.ic,
                oc == self.oc,
                bias_fits(oc as int, held_len(self.b)),
                v@.len() == o,
                forall|m: Arith<T>| #[trigger]
                    computes(m) ==> forall|k: int|
                        0 <= k < o ==> #[trigger] v@[k] == biased(
                            m,
                            dot(m, self.w@, k * ic, x@, r * ic, ic as int),
                            held(self.b),
                            k,
                        ),
            decreases oc - o,
        {
            let mut acc = T::from_bits(0);
            let mut i: usize = 0;
            while i < ic
                invariant
                    i <= ic,
                    o < oc,
                    r < rows,
                    rows * ic <= x.len(),
                    oc * ic <= self.w.len(),
                    forall|m: Arith<T>| #[trigger]
                        computes(m) ==> acc == dot(m, self.w@, o * ic, x@, r * ic, i as int),
                decreases ic - i,
            {
                proof {
                    lemma_flat(o as int, oc as int, i as int, ic as int);
                    lemma_flat(r as int, rows as int, i as int, ic as int);
                }
                acc = acc.plus(self.w[o * ic + i].times(x[r * ic + i]));
                i += 1;
            }
            if let Some(b) = &self.b {
                acc = acc.plus(b[o]);
            }
            v.push(acc);
            o += 1;
        }
        v
    }

    /// Applies the map to every complete row.
    pub fn apply(&self, x: &[T]) -> (r: Vec<T>)
        requires
            self.fits(x@.len() as int),
        ensures
            r@.len() == self.out_len(x@.len() as int),
            forall|m: Arith<T>| #[trigger] computes(m) ==> r@ == self.out(m, x@),
    {
        let rows = x.len() / self.ic;
        let oc = self.oc;
        let row = |r: usize| -> (v: Vec<T>)
            requires
                r < rows,
            ensures
                is_linear_row(
                    v@,
                    x@,
                    self.w@,
                    held(self.b),
                    self.ic as int,
                    self.oc as int,
                    r as int,
                ),
            { self.row(x, rows, r) };
        let parts = par_map(rows, row);
        assert forall|i: int| 0 <= i < parts@.len() implies (#[trigger] parts@[i])@.len() == oc by {
            assert(is_linear_row(
                parts@[i as usize as int]@,
                x@,
                self.w@,
                held(self.b),
                self.ic as int,
                oc as int,
                i,
            ));
        }
        let out = assemble(&parts, oc);
        assert forall|m: Arith<T>| #[trigger] computes(m) implies out@ == self.out(m, x@) by {
            let want = self.out(m, x@);
            assert forall|i: int| 0 <= i < out@.len() implies out@[i] == want[i] by {
                lemma_split(i, rows as int, oc as int);
                let p = (i / oc as int) as usize;
                assert(is_linear_row(
                    parts@[p as int]@,
                    x@,
                    self.w@,
                    held(self.b),
                    self.ic as int,
                    oc as int,
                    p as int,
                ));
            }
            assert(out@ =~= want);
        }
        out
    }
}

// ---- layer norm -----------------------------------------------------------------------

/// Layer norm with its own scale and shift.
#[derive(Debug)]
pub struct LayerNorm<T> {
    pub w: Vec<T>,
    pub b: Vec<T>,
}

impl<T: Scalar> LayerNorm<T> {
    /// The steps by which layer norm is loaded.
    #[verifier::opaque]
    pub open spec fn steps(prefix: Seq<char>) -> Seq<Step> {
        reads(prefix + ".weight"@) + reads(prefix + ".bias"@)
    }

    /// Scale and shift are those that the weights hold under this prefix.
    pub open spec fn loaded(self, w: Checkpoint, prefix: Seq<char>) -> bool {
        forall|m: Arith<T>| #[trigger]
            computes(m) ==> self.w@ == data(m, w, prefix + ".weight"@) && self.b@ == data(
                m,
                w,
                prefix + ".bias"@,
            )
    }

    /// Loads layer norm.
    pub fn load(wts: &Weights, prefix: &str) -> (r: Result<LayerNorm<T>, WeightsError>)
        requires
            wts.wf(),
        ensures
            match r {
                Ok(l) => clear(wts@, Self::steps(prefix@)) && l.loaded(wts@, prefix@),
                Err(e) => fails_with(wts@, Self::steps(prefix@), e@),
            },
    {
        reveal(LayerNorm::steps);
        let w: Vec<T> = match wts.get(joined(prefix, ".weight").as_str()) {
            Err(e) => {
                return Err(e);
            },
            Ok(v) => v,
        };
        let b: Vec<T> = match wts.get(joined(prefix, ".bias").as_str()) {
            Err(e) => {
                return Err(e);
            },
            Ok(v) => v,
        };
        Ok(LayerNorm { w, b })
    }

    /// Every complete row normalised.
    pub open spec fn out(self, m: Arith<T>, x: Seq<T>) -> Seq<T> {
        let c = self.w@.len() as int;
        layernorm_spec(m, x, x.len() as int / c, c, self.w@, self.b@, (m.bits)(LN_EPS))
    }

    /// Layer norm is defined.
    pub open spec fn fits(self) -> bool {
        0 < self.w@.len() <= self.b@.len()
    }

    /// Normalises every complete row.
    pub fn apply(&self, x: &mut Vec<T>)
        requires
            self.fits(),
        ensures
            final(x)@.len() == old(x)@.len(),
            forall|m: Arith<T>| #[trigger] computes(m) ==> final(x)@ == self.out(m, old(x)@),
    {
        layernorm_slice(x, self.w.len(), &self.w, &self.b, T::from_bits(LN_EPS));
    }
}

// ---- the perceptron -------------------------------------------------------------------

/// Two linear maps with a GELU between them.
#[derive(Debug)]
pub struct Mlp<T> {
    pub fc1: Linear<T>,
    pub fc2: Linear<T>,
}

/// GELU of every element.
pub open spec fn gelu_all<T>(m: Arith<T>, x: Seq<T>) -> Seq<T> {
    Seq::new(x.len(), |i: int| gelu_of(m, x[i]))
}

impl<T: Scalar> Mlp<T> {
    /// The steps by which the perceptron is loaded.
    #[verifier::opaque]
    pub open spec fn steps(prefix: Seq<char>) -> Seq<Step> {
        Linear::<T>::steps(prefix + ".fc1.weight"@) + Linear::<T>::steps(prefix + ".fc2.weight"@)
    }

    /// The maps are those that the weights hold under this prefix.
    pub open spec fn loaded(self, w: Checkpoint, prefix: Seq<char>) -> bool {
        &&& self.fc1.loaded(w, prefix + ".fc1.weight"@)
        &&& self.fc2.loaded(w, prefix + ".fc2.weight"@)
    }

    /// Loads the perceptron.
    pub fn load(wts: &Weights, prefix: &str) -> (r: Result<Mlp<T>, WeightsError>)
        requires
            wts.wf(),
        ensures
            match r {
                Ok(l) => clear(wts@, Self::steps(prefix@)) && l.loaded(wts@, prefix@),
                Err(e) => fails_with(wts@, Self::steps(prefix@), e@),
            },
    {
        reveal(Mlp::steps);
        let fc1: Linear<T> = match Linear::load(wts, joined(prefix, ".fc1.weight").as_str()) {
            Err(e) => {
                return Err(e);
            },
            Ok(l) => l,
        };
        let fc2: Linear<T> = match Linear::load(wts, joined(prefix, ".fc2.weight").as_str()) {
            Err(e) => {
                return Err(e);
            },
            Ok(l) => l,
        };
        Ok(Mlp { fc1, fc2 })
    }

    /// The perceptron applied to every complete row.
    pub open spec fn out(self, m: Arith<T>, x: Seq<T>) -> Seq<T> {
        self.fc2.out(m, gelu_all(m, self.fc1.out(m, x)))
    }

    /// The perceptron is defined on `n` elements.
    pub open spec fn fits(self, n: int) -> bool {
        self.fc1.fits(n) && self.fc2.fits(self.fc1.out_len(n))
    }

    /// Number of elements that the perceptron makes of `n`.
    pub open spec fn out_len(self, n: int) -> int {
        self.fc2.out_len(self.fc1.out_len(n))
    }

    /// Applies the perceptron to every complete row.
    pub fn apply(&self, x: &[T]) -> (r: Vec<T>)
        requires
            self.fits(x@.len() as int),
        ensures
            r@.len() == self.out_len(x@.len() as int),
            forall|m: Arith<T>| #[trigger] computes(m) ==> r@ == self.out(m, x@),
    {
        let h = self.fc1.apply(x);
        let n = h.len();
        let mut t = Tensor { c: 1, h: 1, w: n, data: h };
        let ghost before = t@;
        gelu_exact_inplace(&mut t);
        assert forall|m: Arith<T>| #[trigger] computes(m) implies t@.data == gelu_all(
            m,
            before.data,
        ) by {
            assert(t@ == each(before, |v: T| gelu_of(m, v)));
            assert(t@.data =~= gelu_all(m, before.data));
        }
        self.fc2.apply(&t.data)
    }
}

} // verus!
