//! Loading the network onto the device.
//!
//! Each weight has a buffer. Loading a part looks its weights up and uploads the batch norms
//! that it folds.

use crate::cuda::{start_plan, upload_plan, CudaModel, Plan, Source, DW};
use crate::cuda_forward::CudaNet;
use crate::cuda_graph::{CudaAttn, CudaBn, CudaLayerNorm, CudaLinear, CudaMlp, CudaSwinBlock};
use crate::cuda_net::{
    CudaAspp, CudaAsppBranch, CudaBasicDecBlk, CudaDecoder, CudaDeformConv, CudaGdt,
    CudaSimpleConvs, CudaSwinStage, CudaWeights,
};
use crate::linear::bias_name;
use crate::loading::{bn_steps, clear, dimension, fails_with, group_steps, present, Step};
use crate::names::bytes_of;
use crate::swin::{block_prefix, shift_of, DEPTHS, DIMS, HEADS};
use crate::tensor::copied;
use crate::text::text;
use crate::weights::{
    count_of, data_len, entry, problem_of, Checkpoint, Problem, Weights, WeightsError,
};
use crate::windows::WINDOW;
use crate::words::{joined, number_string, number_text, numbered, trimmed_tail};
use vstd::prelude::*;
use vstd::string::StringExecFns;
use vstd::utf8::encode_utf8;

verus! {

broadcast use group_steps;

// ---- the weights ----------------------------------------------------------------------

/// The weights and their buffers: what the file holds, the names in order, and the buffer of
/// each.
#[verifier::ext_equal]
pub struct Store {
    pub w: Checkpoint,
    pub names: Seq<Seq<u8>>,
    pub bufs: Seq<Option<usize>>,
}

impl DW {
    /// The weight is the one of this name.
    pub open spec fn at(&self, s: Store, name: Seq<char>) -> bool {
        &&& entry(s.w, name) is Some
        &&& self.shape@ == entry(s.w, name)->0.shape
        &&& self.buf == s.bufs[s.names.index_of(encode_utf8(name))]
    }
}

/// The uploads of the first `n` weights, and their buffers.
pub open spec fn uploads(p: Plan, w: Checkpoint, names: Seq<Seq<u8>>, n: int) -> (
    Plan,
    Seq<Option<usize>>,
)
    decreases n,
{
    if n <= 0 {
        (p, Seq::empty())
    } else {
        let (p, bufs) = uploads(p, w, names, n - 1);
        let (p, b) = upload_plan(
            p,
            Source::Weight(names[n - 1]),
            count_of(w.tensors[names[n - 1]]),
        );
        (p, bufs.push(b))
    }
}

/// The problem of the first weight that cannot be read.
pub open spec fn first_problem(
    w: Checkpoint,
    names: Seq<Seq<u8>>,
    p: Problem<Seq<u8>, Seq<usize>>,
) -> bool {
    exists|k: int|
        0 <= k < names.len() && problem_of(w, #[trigger] names[k]) == Some(p) && forall|j: int|
            0 <= j < k ==> problem_of(w, #[trigger] names[j]) is None
}

impl CudaModel {
    /// The weights and their buffers.
    pub open spec fn store(&self, wts: &Weights) -> Store {
        Store { w: wts@, names: wts.tensors.listed(), bufs: self.weights@ }
    }

    /// Every weight has a buffer.
    pub open spec fn holds(&self, wts: &Weights) -> bool {
        self.weights@.len() == wts.tensors.listed().len()
    }

    /// Plans the upload of every weight.
    pub fn load(wts: &Weights) -> (r: Result<CudaModel, WeightsError>)
        requires
            wts.wf(),
        ensures
            match r {
                Ok(m) => {
                    &&& m.holds(wts)
                    &&& (m@, m.weights@) == uploads(
                        start_plan(),
                        wts@,
                        wts.tensors.listed(),
                        wts.tensors.listed().len() as int,
                    )
                    &&& forall|i: int|
                        0 <= i < wts.tensors.listed().len() ==> problem_of(
                            wts@,
                            #[trigger] wts.tensors.listed()[i],
                        ) is None
                },
                Err(e) => first_problem(wts@, wts.tensors.listed(), e@),
            },
    {
        let names = wts.names();
        let mut m = CudaModel::new();
        let ghost listed = wts.tensors.listed();
        let mut i: usize = 0;
        assert(m.weights@ =~= Seq::<Option<usize>>::empty());
        while i < names.len()
            invariant
                i <= names@.len(),
                wts.wf(),
                listed == wts.tensors.listed(),
                names@.len() == listed.len(),
                forall|k: int| 0 <= k < names@.len() ==> (#[trigger] names@[k])@ == listed[k],
                m.weights@.len() == i,
                (m@, m.weights@) == uploads(start_plan(), wts@, listed, i as int),
                forall|k: int| 0 <= k < i ==> problem_of(wts@, #[trigger] listed[k]) is None,
            decreases names@.len() - i,
        {
            match wts.length_of(&names[i]) {
                Err(e) => {
                    assert(problem_of(wts@, listed[i as int]) == Some(e@));
                    return Err(e);
                },
                Ok(n) => {
                    let b = m.upload(Source::Weight(bytes_of(&names[i])), n);
                    m.weights.push(b);
                },
            }
            i += 1;
        }
        Ok(m)
    }

    /// The weight of this name.
    pub fn w(&self, wts: &Weights, name: &str) -> (r: Result<DW, WeightsError>)
        requires
            wts.wf(),
            self.holds(wts),
        ensures
            match r {
                Ok(d) => clear(wts@, present(name@)) && d.at(self.store(wts), name@),
                Err(e) => fails_with(wts@, present(name@), e@),
            },
    {
        match wts.tensors.position(name.as_bytes()) {
            None => Err(Problem::Missing { name: text(name) }),
            Some(i) => match wts.shape(name) {
                Err(e) => Err(e),
                Ok(s) => Ok(DW { buf: self.weights[i], shape: copied(s) }),
            },
        }
    }
}

// ---- batch norm -----------------------------------------------------------------------

/// The plan behind the upload of a batch norm.
#[verifier::opaque]
pub open spec fn bn_after(p: Plan, w: Checkpoint, prefix: Seq<char>) -> Plan {
    let n = data_len(w, prefix + ".weight"@);
    upload_plan(upload_plan(p, Source::Scale(prefix), n).0, Source::Shift(prefix), n).0
}

impl CudaBn {
    /// The batch norm is the one under this prefix, uploaded next.
    #[verifier::opaque]
    pub open spec fn at(&self, p: Plan, w: Checkpoint, prefix: Seq<char>) -> bool {
        let n = data_len(w, prefix + ".weight"@);
        let (q, scale) = upload_plan(p, Source::Scale(prefix), n);
        let (_, shift) = upload_plan(q, Source::Shift(prefix), n);
        &&& self.scale.buf == scale
        &&& self.shift.buf == shift
        &&& self.scale.shape@ == seq![n as usize]
        &&& self.shift.shape@ == seq![n as usize]
    }
}

/// How many numbers the batch norm under a prefix has, each of its four tensors at least.
fn bn_length(wts: &Weights, prefix: &str) -> (r: Result<usize, WeightsError>)
    requires
        wts.wf(),
    ensures
        match r {
            Ok(n) => clear(wts@, bn_steps(prefix@)) && n == data_len(wts@, prefix@ + ".weight"@),
            Err(e) => fails_with(wts@, bn_steps(prefix@), e@),
        },
{
    reveal(bn_steps);
    let n = match wts.length_of(joined(prefix, ".weight").as_str().as_bytes()) {
        Err(e) => {
            return Err(e);
        },
        Ok(n) => n,
    };
    let b = match wts.length_of(joined(prefix, ".bias").as_str().as_bytes()) {
        Err(e) => {
            return Err(e);
        },
        Ok(n) => n,
    };
    let mean = match wts.length_of(joined(prefix, ".running_mean").as_str().as_bytes()) {
        Err(e) => {
            return Err(e);
        },
        Ok(n) => n,
    };
    let var = match wts.length_of(joined(prefix, ".running_var").as_str().as_bytes()) {
        Err(e) => {
            return Err(e);
        },
        Ok(n) => n,
    };
    if var < n {
        return Err(Problem::TooShort { name: text(joined(prefix, ".running_var").as_str()) });
    }
    if b < n {
        return Err(Problem::TooShort { name: text(joined(prefix, ".bias").as_str()) });
    }
    if mean < n {
        return Err(Problem::TooShort { name: text(joined(prefix, ".running_mean").as_str()) });
    }
    Ok(n)
}

impl CudaModel {
    /// Plans the upload of the batch norm under a prefix, as a scale and a shift.
    pub fn affine_from_bn(&mut self, wts: &Weights, prefix: &str) -> (r: Result<
        CudaBn,
        WeightsError,
    >)
        requires
            wts.wf(),
        ensures
            final(self).weights == old(self).weights,
            match r {
                Ok(bn) => {
                    &&& clear(wts@, bn_steps(prefix@))
                    &&& bn.at(old(self)@, wts@, prefix@)
                    &&& final(self)@ == bn_after(old(self)@, wts@, prefix@)
                },
                Err(e) => fails_with(wts@, bn_steps(prefix@), e@),
            },
    {
        reveal(bn_after);
        reveal(CudaBn::at);
        let n = match bn_length(wts, prefix) {
            Err(e) => {
                return Err(e);
            },
            Ok(n) => n,
        };
        let scale = self.upload(Source::Scale(String::from_str(prefix)), n);
        let shift = self.upload(Source::Shift(String::from_str(prefix)), n);
        let a: Vec<usize> = vec![n];
        let b: Vec<usize> = vec![n];
        assert(a@ =~= seq![n]);
        assert(b@ =~= seq![n]);
        Ok(CudaBn { scale: DW { buf: scale, shape: a }, shift: DW { buf: shift, shape: b } })
    }
}

// ---- the parts ------------------------------------------------------------------------

impl CudaLinear {
    /// The steps by which a linear map is loaded.
    #[verifier::opaque]
    pub open spec fn steps(name: Seq<char>) -> Seq<Step> {
        present(name)
    }

    /// The linear map is the one whose weight has this name. The bias is optional.
    #[verifier::opaque]
    pub open spec fn at(&self, s: Store, name: Seq<char>) -> bool {
        &&& self.w.at(s, name)
        &&& self.b is Some <==> entry(s.w, bias_name(name)) is Some
        &&& self.b matches Some(b) ==> b.at(s, bias_name(name))
    }

    /// Loads the linear map whose weight has this name.
    pub fn load(m: &CudaModel, wts: &Weights, name: &str) -> (r: Result<CudaLinear, WeightsError>)
        requires
            wts.wf(),
            m.holds(wts),
        ensures
            match r {
                Ok(v) => clear(wts@, Self::steps(name@)) && v.at(m.store(wts), name@),
                Err(e) => fails_with(wts@, Self::steps(name@), e@),
            },
    {
        reveal(CudaLinear::steps);
        reveal(CudaLinear::at);
        let w = match m.w(wts, name) {
            Err(e) => {
                return Err(e);
            },
            Ok(d) => d,
        };
        let bname = joined(trimmed_tail(name, ".weight"), ".bias");
        let b = match m.w(wts, bname.as_str()) {
            Ok(d) => Some(d),
            Err(_) => None,
        };
        Ok(CudaLinear { w, b })
    }
}

impl CudaLayerNorm {
    /// The steps by which a layer norm is loaded.
    #[verifier::opaque]
    pub open spec fn steps(prefix: Seq<char>) -> Seq<Step> {
        present(prefix + ".weight"@)
            + present(prefix + ".bias"@)
    }

    /// The norm is the one under this prefix.
    #[verifier::opaque]
    pub open spec fn at(&self, s: Store, prefix: Seq<char>) -> bool {
        &&& self.w.at(s, prefix + ".weight"@)
        &&& self.b.at(s, prefix + ".bias"@)
    }

    /// Loads a layer norm.
    pub fn load(
        m: &CudaModel,
        wts: &Weights,
        prefix: &str,
    ) -> (r: Result<CudaLayerNorm, WeightsError>)
        requires
            wts.wf(),
            m.holds(wts),
        ensures
            match r {
                Ok(v) => clear(wts@, Self::steps(prefix@)) && v.at(m.store(wts), prefix@),
                Err(e) => fails_with(wts@, Self::steps(prefix@), e@),
            },
    {
        reveal(CudaLayerNorm::steps);
        reveal(CudaLayerNorm::at);
        let w = match m.w(wts, joined(prefix, ".weight").as_str()) {
            Err(e) => {
                return Err(e);
            },
            Ok(v) => v,
        };
        let b = match m.w(wts, joined(prefix, ".bias").as_str()) {
            Err(e) => {
                return Err(e);
            },
            Ok(v) => v,
        };
        Ok(CudaLayerNorm { w, b })
    }
}

impl CudaMlp {
    /// The steps by which a perceptron is loaded.
    #[verifier::opaque]
    pub open spec fn steps(prefix: Seq<char>) -> Seq<Step> {
        CudaLinear::steps(prefix + ".fc1.weight"@)
            + CudaLinear::steps(prefix + ".fc2.weight"@)
    }

    /// The perceptron is the one under this prefix.
    #[verifier::opaque]
    pub open spec fn at(&self, s: Store, prefix: Seq<char>) -> bool {
        &&& self.fc1.at(s, prefix + ".fc1.weight"@)
        &&& self.fc2.at(s, prefix + ".fc2.weight"@)
    }

    /// Loads a perceptron.
    pub fn load(m: &CudaModel, wts: &Weights, prefix: &str) -> (r: Result<CudaMlp, WeightsError>)
        requires
            wts.wf(),
            m.holds(wts),
        ensures
            match r {
                Ok(v) => clear(wts@, Self::steps(prefix@)) && v.at(m.store(wts), prefix@),
                Err(e) => fails_with(wts@, Self::steps(prefix@), e@),
            },
    {
        reveal(CudaMlp::steps);
        reveal(CudaMlp::at);
        let fc1 = match CudaLinear::load(m, wts, joined(prefix, ".fc1.weight").as_str()) {
            Err(e) => {
                return Err(e);
            },
            Ok(v) => v,
        };
        let fc2 = match CudaLinear::load(m, wts, joined(prefix, ".fc2.weight").as_str()) {
            Err(e) => {
                return Err(e);
            },
            Ok(v) => v,
        };
        Ok(CudaMlp { fc1, fc2 })
    }
}

impl CudaAttn {
    /// The steps by which attention is loaded.
    #[verifier::opaque]
    pub open spec fn steps(prefix: Seq<char>, dim: usize, heads: usize) -> Seq<Step> {
        CudaLinear::steps(prefix + ".qkv.weight"@)
            + CudaLinear::steps(prefix + ".proj.weight"@)
            + present(prefix + ".relative_position_bias_table"@)
            + present(prefix + ".relative_position_index"@)
    }

    /// The attention is the one under this prefix.
    #[verifier::opaque]
    pub open spec fn at(&self, s: Store, prefix: Seq<char>, dim: usize, heads: usize) -> bool {
        &&& self.qkv.at(s, prefix + ".qkv.weight"@)
        &&& self.proj.at(s, prefix + ".proj.weight"@)
        &&& self.bias_table.at(s, prefix + ".relative_position_bias_table"@)
        &&& self.index.at(s, prefix + ".relative_position_index"@)
        &&& self.dim == dim
        &&& self.heads == heads
    }

    /// Loads attention.
    pub fn load(
        m: &CudaModel,
        wts: &Weights,
        prefix: &str,
        dim: usize,
        heads: usize,
    ) -> (r: Result<CudaAttn, WeightsError>)
        requires
            wts.wf(),
            m.holds(wts),
        ensures
            match r {
                Ok(v) => clear(
                    wts@,
                    Self::steps(prefix@, dim, heads),
                ) && v.at(m.store(wts), prefix@, dim, heads),
                Err(e) => fails_with(wts@, Self::steps(prefix@, dim, heads), e@),
            },
    {
        reveal(CudaAttn::steps);
        reveal(CudaAttn::at);
        let qkv = match CudaLinear::load(m, wts, joined(prefix, ".qkv.weight").as_str()) {
            Err(e) => {
                return Err(e);
            },
            Ok(v) => v,
        };
        let proj = match CudaLinear::load(m, wts, joined(prefix, ".proj.weight").as_str()) {
            Err(e) => {
                return Err(e);
            },
            Ok(v) => v,
        };
        let bias_table = match m.w(wts, joined(prefix, ".relative_position_bias_table").as_str()) {
            Err(e) => {
                return Err(e);
            },
            Ok(v) => v,
        };
        let index = match m.w(wts, joined(prefix, ".relative_position_index").as_str()) {
            Err(e) => {
                return Err(e);
            },
            Ok(v) => v,
        };
        Ok(CudaAttn { qkv, proj, bias_table, index, heads, dim })
    }
}

impl CudaDeformConv {
    /// The steps by which a modulated convolution is loaded.
    #[verifier::opaque]
    pub open spec fn steps(prefix: Seq<char>, k: usize, pad: usize) -> Seq<Step> {
        present(prefix + ".offset_conv.weight"@)
            + present(prefix + ".regular_conv.weight"@)
            + present(prefix + ".offset_conv.bias"@)
            + present(prefix + ".modulator_conv.weight"@)
            + present(prefix + ".modulator_conv.bias"@)
            + seq![Step::Dims(prefix + ".offset_conv.weight"@, 2)]
            + seq![Step::Dims(prefix + ".regular_conv.weight"@, 1)]
    }

    /// The convolution is the one under this prefix.
    #[verifier::opaque]
    pub open spec fn at(&self, s: Store, prefix: Seq<char>, k: usize, pad: usize) -> bool {
        &&& self.offset_w.at(s, prefix + ".offset_conv.weight"@)
        &&& self.regular_w.at(s, prefix + ".regular_conv.weight"@)
        &&& self.offset_b.at(s, prefix + ".offset_conv.bias"@)
        &&& self.modulator_w.at(s, prefix + ".modulator_conv.weight"@)
        &&& self.modulator_b.at(s, prefix + ".modulator_conv.bias"@)
        &&& self.ic == entry(s.w, prefix + ".offset_conv.weight"@)->0.shape[1]
        &&& self.oc == entry(s.w, prefix + ".regular_conv.weight"@)->0.shape[0]
        &&& self.k == k
        &&& self.pad == pad
    }

    /// Loads a modulated convolution.
    pub fn load(
        m: &CudaModel,
        wts: &Weights,
        prefix: &str,
        k: usize,
        pad: usize,
    ) -> (r: Result<CudaDeformConv, WeightsError>)
        requires
            wts.wf(),
            m.holds(wts),
        ensures
            match r {
                Ok(v) => clear(
                    wts@,
                    Self::steps(prefix@, k, pad),
                ) && v.at(m.store(wts), prefix@, k, pad),
                Err(e) => fails_with(wts@, Self::steps(prefix@, k, pad), e@),
            },
    {
        reveal(CudaDeformConv::steps);
        reveal(CudaDeformConv::at);
        let offset_w = match m.w(wts, joined(prefix, ".offset_conv.weight").as_str()) {
            Err(e) => {
                return Err(e);
            },
            Ok(v) => v,
        };
        let regular_w = match m.w(wts, joined(prefix, ".regular_conv.weight").as_str()) {
            Err(e) => {
                return Err(e);
            },
            Ok(v) => v,
        };
        let offset_b = match m.w(wts, joined(prefix, ".offset_conv.bias").as_str()) {
            Err(e) => {
                return Err(e);
            },
            Ok(v) => v,
        };
        let modulator_w = match m.w(wts, joined(prefix, ".modulator_conv.weight").as_str()) {
            Err(e) => {
                return Err(e);
            },
            Ok(v) => v,
        };
        let modulator_b = match m.w(wts, joined(prefix, ".modulator_conv.bias").as_str()) {
            Err(e) => {
                return Err(e);
            },
            Ok(v) => v,
        };
        let ic = match dimension(wts, joined(prefix, ".offset_conv.weight").as_str(), 2, 1) {
            Err(e) => {
                return Err(e);
            },
            Ok(v) => v,
        };
        let oc = match dimension(wts, joined(prefix, ".regular_conv.weight").as_str(), 1, 0) {
            Err(e) => {
                return Err(e);
            },
            Ok(v) => v,
        };
        Ok(
            CudaDeformConv {
                offset_w,
                offset_b,
                modulator_w,
                modulator_b,
                regular_w,
                k,
                pad,
                ic,
                oc,
            },
        )
    }
}

impl CudaAsppBranch {
    /// The steps by which a branch of the pyramid is loaded.
    #[verifier::opaque]
    pub open spec fn steps(prefix: Seq<char>, k: usize, pad: usize) -> Seq<Step> {
        bn_steps(prefix + ".bn"@)
            + CudaDeformConv::steps(prefix + ".atrous_conv"@, k, pad)
    }

    /// The branch is the one under this prefix.
    #[verifier::opaque]
    pub open spec fn at(&self, s: Store, p: Plan, prefix: Seq<char>, k: usize, pad: usize) -> bool {
        &&& self.bn.at(p, s.w, prefix + ".bn"@)
        &&& self.conv.at(s, prefix + ".atrous_conv"@, k, pad)
    }

    /// The plan behind the loading of a branch of the pyramid.
    #[verifier::opaque]
    pub open spec fn after(
        p: Plan,
        w: Checkpoint,
        prefix: Seq<char>,
        k: usize,
        pad: usize,
    ) -> Plan {
        bn_after(p, w, prefix + ".bn"@)
    }

    /// Loads a branch of the pyramid.
    pub fn load(
        m: &mut CudaModel,
        wts: &Weights,
        prefix: &str,
        k: usize,
        pad: usize,
    ) -> (r: Result<CudaAsppBranch, WeightsError>)
        requires
            wts.wf(),
            old(m).holds(wts),
        ensures
            final(m).weights == old(m).weights,
            match r {
                Ok(v) => {
                    &&& clear(wts@, Self::steps(prefix@, k, pad))
                    &&& v.at(old(m).store(wts), old(m)@, prefix@, k, pad)
                    &&& final(m)@ == Self::after(old(m)@, wts@, prefix@, k, pad)
                },
                Err(e) => fails_with(wts@, Self::steps(prefix@, k, pad), e@),
            },
    {
        reveal(CudaAsppBranch::steps);
        reveal(CudaAsppBranch::at);
        reveal(CudaAsppBranch::after);
        let bn = match m.affine_from_bn(wts, joined(prefix, ".bn").as_str()) {
            Err(e) => {
                return Err(e);
            },
            Ok(v) => v,
        };
        let conv = match CudaDeformConv::load(
            m,
            wts,
            joined(prefix, ".atrous_conv").as_str(),
            k,
            pad,
        ) {
            Err(e) => {
                return Err(e);
            },
            Ok(v) => v,
        };
        Ok(CudaAsppBranch { conv, bn })
    }
}

impl CudaAspp {
    /// The steps by which the pyramid is loaded.
    #[verifier::opaque]
    pub open spec fn steps(prefix: Seq<char>) -> Seq<Step> {
        bn_steps(prefix + ".global_avg_pool.2"@)
            + bn_steps(prefix + ".bn1"@)
            + CudaAsppBranch::steps(prefix + ".aspp1"@, 1, 0)
            + CudaAsppBranch::steps(prefix + ".aspp_deforms.0"@, 1, 0)
            + CudaAsppBranch::steps(prefix + ".aspp_deforms.1"@, 3, 1)
            + CudaAsppBranch::steps(prefix + ".aspp_deforms.2"@, 7, 3)
            + present(prefix + ".global_avg_pool.1.weight"@)
            + present(prefix + ".conv1.weight"@)
    }

    /// The pyramid is the one under this prefix.
    #[verifier::opaque]
    pub open spec fn at(&self, s: Store, p: Plan, prefix: Seq<char>) -> bool {
        let p1 = bn_after(p, s.w, prefix + ".global_avg_pool.2"@);
        let p2 = bn_after(p1, s.w, prefix + ".bn1"@);
        let p3 = CudaAsppBranch::after(p2, s.w, prefix + ".aspp1"@, 1, 0);
        let p4 = CudaAsppBranch::after(p3, s.w, prefix + ".aspp_deforms.0"@, 1, 0);
        let p5 = CudaAsppBranch::after(p4, s.w, prefix + ".aspp_deforms.1"@, 3, 1);
        &&& self.deforms@.len() == 3
        &&& self.gap_bn.at(p, s.w, prefix + ".global_avg_pool.2"@)
        &&& self.bn1.at(p1, s.w, prefix + ".bn1"@)
        &&& self.aspp1.at(s, p2, prefix + ".aspp1"@, 1, 0)
        &&& self.deforms@[0].at(s, p3, prefix + ".aspp_deforms.0"@, 1, 0)
        &&& self.deforms@[1].at(s, p4, prefix + ".aspp_deforms.1"@, 3, 1)
        &&& self.deforms@[2].at(s, p5, prefix + ".aspp_deforms.2"@, 7, 3)
        &&& self.gap_conv_w.at(s, prefix + ".global_avg_pool.1.weight"@)
        &&& self.conv1_w.at(s, prefix + ".conv1.weight"@)
    }

    /// The plan behind the loading of the pyramid.
    #[verifier::opaque]
    pub open spec fn after(p: Plan, w: Checkpoint, prefix: Seq<char>) -> Plan {
        let p1 = bn_after(p, w, prefix + ".global_avg_pool.2"@);
        let p2 = bn_after(p1, w, prefix + ".bn1"@);
        let p3 = CudaAsppBranch::after(p2, w, prefix + ".aspp1"@, 1, 0);
        let p4 = CudaAsppBranch::after(p3, w, prefix + ".aspp_deforms.0"@, 1, 0);
        let p5 = CudaAsppBranch::after(p4, w, prefix + ".aspp_deforms.1"@, 3, 1);
        CudaAsppBranch::after(p5, w, prefix + ".aspp_deforms.2"@, 7, 3)
    }

    /// Loads the pyramid.
    pub fn load(
        m: &mut CudaModel,
        wts: &Weights,
        prefix: &str,
    ) -> (r: Result<CudaAspp, WeightsError>)
        requires
            wts.wf(),
            old(m).holds(wts),
        ensures
            final(m).weights == old(m).weights,
            match r {
                Ok(v) => {
                    &&& clear(wts@, Self::steps(prefix@))
                    &&& v.at(old(m).store(wts), old(m)@, prefix@)
                    &&& final(m)@ == Self::after(old(m)@, wts@, prefix@)
                },
                Err(e) => fails_with(wts@, Self::steps(prefix@), e@),
            },
    {
        reveal(CudaAspp::steps);
        reveal(CudaAspp::at);
        reveal(CudaAspp::after);
        let gap_bn = match m.affine_from_bn(wts, joined(prefix, ".global_avg_pool.2").as_str()) {
            Err(e) => {
                return Err(e);
            },
            Ok(v) => v,
        };
        let bn1 = match m.affine_from_bn(wts, joined(prefix, ".bn1").as_str()) {
            Err(e) => {
                return Err(e);
            },
            Ok(v) => v,
        };
        let aspp1 = match CudaAsppBranch::load(m, wts, joined(prefix, ".aspp1").as_str(), 1, 0) {
            Err(e) => {
                return Err(e);
            },
            Ok(v) => v,
        };
        let d0 = match CudaAsppBranch::load(
            m,
            wts,
            joined(prefix, ".aspp_deforms.0").as_str(),
            1,
            0,
        ) {
            Err(e) => {
                return Err(e);
            },
            Ok(v) => v,
        };
        let d1 = match CudaAsppBranch::load(
            m,
            wts,
            joined(prefix, ".aspp_deforms.1").as_str(),
            3,
            1,
        ) {
            Err(e) => {
                return Err(e);
            },
            Ok(v) => v,
        };
        let d2 = match CudaAsppBranch::load(
            m,
            wts,
            joined(prefix, ".aspp_deforms.2").as_str(),
            7,
            3,
        ) {
            Err(e) => {
                return Err(e);
            },
            Ok(v) => v,
        };
        let gap_conv_w = match m.w(wts, joined(prefix, ".global_avg_pool.1.weight").as_str()) {
            Err(e) => {
                return Err(e);
            },
            Ok(v) => v,
        };
        let conv1_w = match m.w(wts, joined(prefix, ".conv1.weight").as_str()) {
            Err(e) => {
                return Err(e);
            },
            Ok(v) => v,
        };
        let deforms: Vec<CudaAsppBranch> = vec![d0, d1, d2];
        Ok(CudaAspp { aspp1, deforms, gap_conv_w, gap_bn, conv1_w, bn1 })
    }
}

impl CudaBasicDecBlk {
    /// The steps by which a block of the decoder is loaded.
    #[verifier::opaque]
    pub open spec fn steps(prefix: Seq<char>) -> Seq<Step> {
        present(prefix + ".conv_in.weight"@)
            + present(prefix + ".conv_out.weight"@)
            + bn_steps(prefix + ".bn_in"@)
            + bn_steps(prefix + ".bn_out"@)
            + present(prefix + ".conv_in.bias"@)
            + CudaAspp::steps(prefix + ".dec_att"@)
            + present(prefix + ".conv_out.bias"@)
            + seq![Step::Dims(prefix + ".conv_in.weight"@, 2)]
            + seq![Step::Dims(prefix + ".conv_in.weight"@, 2)]
            + seq![Step::Dims(prefix + ".conv_out.weight"@, 1)]
    }

    /// The block is the one under this prefix.
    #[verifier::opaque]
    pub open spec fn at(&self, s: Store, p: Plan, prefix: Seq<char>) -> bool {
        let p1 = bn_after(p, s.w, prefix + ".bn_in"@);
        let p2 = bn_after(p1, s.w, prefix + ".bn_out"@);
        &&& self.conv_in_w.at(s, prefix + ".conv_in.weight"@)
        &&& self.conv_out_w.at(s, prefix + ".conv_out.weight"@)
        &&& self.bn_in.at(p, s.w, prefix + ".bn_in"@)
        &&& self.bn_out.at(p1, s.w, prefix + ".bn_out"@)
        &&& self.conv_in_b.at(s, prefix + ".conv_in.bias"@)
        &&& self.aspp.at(s, p2, prefix + ".dec_att"@)
        &&& self.conv_out_b.at(s, prefix + ".conv_out.bias"@)
        &&& self.ic == entry(s.w, prefix + ".conv_in.weight"@)->0.shape[1]
        &&& self.ic_mid == entry(s.w, prefix + ".conv_in.weight"@)->0.shape[0]
        &&& self.oc == entry(s.w, prefix + ".conv_out.weight"@)->0.shape[0]
    }

    /// The plan behind the loading of a block of the decoder.
    #[verifier::opaque]
    pub open spec fn after(p: Plan, w: Checkpoint, prefix: Seq<char>) -> Plan {
        let p1 = bn_after(p, w, prefix + ".bn_in"@);
        let p2 = bn_after(p1, w, prefix + ".bn_out"@);
        CudaAspp::after(p2, w, prefix + ".dec_att"@)
    }

    /// Loads a block of the decoder.
    pub fn load(
        m: &mut CudaModel,
        wts: &Weights,
        prefix: &str,
    ) -> (r: Result<CudaBasicDecBlk, WeightsError>)
        requires
            wts.wf(),
            old(m).holds(wts),
        ensures
            final(m).weights == old(m).weights,
            match r {
                Ok(v) => {
                    &&& clear(wts@, Self::steps(prefix@))
                    &&& v.at(old(m).store(wts), old(m)@, prefix@)
                    &&& final(m)@ == Self::after(old(m)@, wts@, prefix@)
                },
                Err(e) => fails_with(wts@, Self::steps(prefix@), e@),
            },
    {
        reveal(CudaBasicDecBlk::steps);
        reveal(CudaBasicDecBlk::at);
        reveal(CudaBasicDecBlk::after);
        let conv_in_w = match m.w(wts, joined(prefix, ".conv_in.weight").as_str()) {
            Err(e) => {
                return Err(e);
            },
            Ok(v) => v,
        };
        let conv_out_w = match m.w(wts, joined(prefix, ".conv_out.weight").as_str()) {
            Err(e) => {
                return Err(e);
            },
            Ok(v) => v,
        };
        let bn_in = match m.affine_from_bn(wts, joined(prefix, ".bn_in").as_str()) {
            Err(e) => {
                return Err(e);
            },
            Ok(v) => v,
        };
        let bn_out = match m.affine_from_bn(wts, joined(prefix, ".bn_out").as_str()) {
            Err(e) => {
                return Err(e);
            },
            Ok(v) => v,
        };
        let conv_in_b = match m.w(wts, joined(prefix, ".conv_in.bias").as_str()) {
            Err(e) => {
                return Err(e);
            },
            Ok(v) => v,
        };
        let aspp = match CudaAspp::load(m, wts, joined(prefix, ".dec_att").as_str()) {
            Err(e) => {
                return Err(e);
            },
            Ok(v) => v,
        };
        let conv_out_b = match m.w(wts, joined(prefix, ".conv_out.bias").as_str()) {
            Err(e) => {
                return Err(e);
            },
            Ok(v) => v,
        };
        let ic = match dimension(wts, joined(prefix, ".conv_in.weight").as_str(), 2, 1) {
            Err(e) => {
                return Err(e);
            },
            Ok(v) => v,
        };
        let ic_mid = match dimension(wts, joined(prefix, ".conv_in.weight").as_str(), 2, 0) {
            Err(e) => {
                return Err(e);
            },
            Ok(v) => v,
        };
        let oc = match dimension(wts, joined(prefix, ".conv_out.weight").as_str(), 1, 0) {
            Err(e) => {
                return Err(e);
            },
            Ok(v) => v,
        };
        Ok(
            CudaBasicDecBlk {
                conv_in_w,
                conv_in_b,
                bn_in,
                aspp,
                conv_out_w,
                conv_out_b,
                bn_out,
                ic,
                ic_mid,
                oc,
            },
        )
    }
}

impl CudaSimpleConvs {
    /// The steps by which two convolutions is loaded.
    #[verifier::opaque]
    pub open spec fn steps(prefix: Seq<char>) -> Seq<Step> {
        present(prefix + ".conv1.weight"@)
            + present(prefix + ".conv_out.weight"@)
            + present(prefix + ".conv1.bias"@)
            + present(prefix + ".conv_out.bias"@)
            + seq![Step::Dims(prefix + ".conv1.weight"@, 2)]
            + seq![Step::Dims(prefix + ".conv_out.weight"@, 1)]
    }

    /// The convolutions are those under this prefix.
    #[verifier::opaque]
    pub open spec fn at(&self, s: Store, prefix: Seq<char>) -> bool {
        &&& self.c1w.at(s, prefix + ".conv1.weight"@)
        &&& self.cow.at(s, prefix + ".conv_out.weight"@)
        &&& self.c1b.at(s, prefix + ".conv1.bias"@)
        &&& self.cob.at(s, prefix + ".conv_out.bias"@)
        &&& self.ic == entry(s.w, prefix + ".conv1.weight"@)->0.shape[1]
        &&& self.oc == entry(s.w, prefix + ".conv_out.weight"@)->0.shape[0]
    }

    /// Loads two convolutions.
    pub fn load(
        m: &CudaModel,
        wts: &Weights,
        prefix: &str,
    ) -> (r: Result<CudaSimpleConvs, WeightsError>)
        requires
            wts.wf(),
            m.holds(wts),
        ensures
            match r {
                Ok(v) => clear(wts@, Self::steps(prefix@)) && v.at(m.store(wts), prefix@),
                Err(e) => fails_with(wts@, Self::steps(prefix@), e@),
            },
    {
        reveal(CudaSimpleConvs::steps);
        reveal(CudaSimpleConvs::at);
        let c1w = match m.w(wts, joined(prefix, ".conv1.weight").as_str()) {
            Err(e) => {
                return Err(e);
            },
            Ok(v) => v,
        };
        let cow = match m.w(wts, joined(prefix, ".conv_out.weight").as_str()) {
            Err(e) => {
                return Err(e);
            },
            Ok(v) => v,
        };
        let c1b = match m.w(wts, joined(prefix, ".conv1.bias").as_str()) {
            Err(e) => {
                return Err(e);
            },
            Ok(v) => v,
        };
        let cob = match m.w(wts, joined(prefix, ".conv_out.bias").as_str()) {
            Err(e) => {
                return Err(e);
            },
            Ok(v) => v,
        };
        let ic = match dimension(wts, joined(prefix, ".conv1.weight").as_str(), 2, 1) {
            Err(e) => {
                return Err(e);
            },
            Ok(v) => v,
        };
        let oc = match dimension(wts, joined(prefix, ".conv_out.weight").as_str(), 1, 0) {
            Err(e) => {
                return Err(e);
            },
            Ok(v) => v,
        };
        Ok(CudaSimpleConvs { c1w, c1b, cow, cob, ic, oc })
    }
}

impl CudaGdt {
    /// The steps by which attention over the plane is loaded.
    #[verifier::opaque]
    pub open spec fn steps(stage: usize) -> Seq<Step> {
        present("decoder.gdt_convs_"@ + number_text(stage as int) + ".0.weight"@)
            + bn_steps("decoder.gdt_convs_"@ + number_text(stage as int) + ".1"@)
            + present("decoder.gdt_convs_"@ + number_text(stage as int) + ".0.bias"@)
            + present("decoder.gdt_convs_attn_"@ + number_text(stage as int) + ".0.weight"@)
            + present("decoder.gdt_convs_attn_"@ + number_text(stage as int) + ".0.bias"@)
            + seq![Step::Dims("decoder.gdt_convs_"@ + number_text(stage as int) + ".0.weight"@, 2)]
    }

    /// The attention is the one of this stage.
    #[verifier::opaque]
    pub open spec fn at(&self, s: Store, p: Plan, stage: usize) -> bool {
        &&& self.w.at(s, "decoder.gdt_convs_"@ + number_text(stage as int) + ".0.weight"@)
        &&& self.bn.at(p, s.w, "decoder.gdt_convs_"@ + number_text(stage as int) + ".1"@)
        &&& self.b.at(s, "decoder.gdt_convs_"@ + number_text(stage as int) + ".0.bias"@)
        &&& self.attn_w.at(s, "decoder.gdt_convs_attn_"@ + number_text(stage as int) + ".0.weight"@)
        &&& self.attn_b.at(s, "decoder.gdt_convs_attn_"@ + number_text(stage as int) + ".0.bias"@)
        &&& self.ic == entry(
            s.w,
            "decoder.gdt_convs_"@ + number_text(stage as int) + ".0.weight"@,
        )->0.shape[1]
    }

    /// The plan behind the loading of attention over the plane.
    #[verifier::opaque]
    pub open spec fn after(p: Plan, w: Checkpoint, stage: usize) -> Plan {
        bn_after(p, w, "decoder.gdt_convs_"@ + number_text(stage as int) + ".1"@)
    }

    /// Loads attention over the plane.
    pub fn load(
        m: &mut CudaModel,
        wts: &Weights,
        stage: usize,
    ) -> (r: Result<CudaGdt, WeightsError>)
        requires
            wts.wf(),
            old(m).holds(wts),
        ensures
            final(m).weights == old(m).weights,
            match r {
                Ok(v) => {
                    &&& clear(wts@, Self::steps(stage))
                    &&& v.at(old(m).store(wts), old(m)@, stage)
                    &&& final(m)@ == Self::after(old(m)@, wts@, stage)
                },
                Err(e) => fails_with(wts@, Self::steps(stage), e@),
            },
    {
        reveal(CudaGdt::steps);
        reveal(CudaGdt::at);
        reveal(CudaGdt::after);
        let w = match m.w(wts, numbered("decoder.gdt_convs_", stage, ".0.weight").as_str()) {
            Err(e) => {
                return Err(e);
            },
            Ok(v) => v,
        };
        let bn = match m.affine_from_bn(wts, numbered("decoder.gdt_convs_", stage, ".1").as_str()) {
            Err(e) => {
                return Err(e);
            },
            Ok(v) => v,
        };
        let b = match m.w(wts, numbered("decoder.gdt_convs_", stage, ".0.bias").as_str()) {
            Err(e) => {
                return Err(e);
            },
            Ok(v) => v,
        };
        let attn_w = match m.w(
            wts,
            numbered("decoder.gdt_convs_attn_", stage, ".0.weight").as_str(),
        ) {
            Err(e) => {
                return Err(e);
            },
            Ok(v) => v,
        };
        let attn_b = match m.w(
            wts,
            numbered("decoder.gdt_convs_attn_", stage, ".0.bias").as_str(),
        ) {
            Err(e) => {
                return Err(e);
            },
            Ok(v) => v,
        };
        let ic = match dimension(
            wts,
            numbered("decoder.gdt_convs_", stage, ".0.weight").as_str(),
            2,
            1,
        ) {
            Err(e) => {
                return Err(e);
            },
            Ok(v) => v,
        };
        Ok(CudaGdt { w, b, bn, attn_w, attn_b, ic })
    }
}

/// The steps by which what the image goes through is loaded.
#[verifier::opaque]
pub open spec fn ipt_steps() -> Seq<Step> {
    CudaSimpleConvs::steps("decoder.ipt_blk1"@)
        + CudaSimpleConvs::steps("decoder.ipt_blk2"@)
        + CudaSimpleConvs::steps("decoder.ipt_blk3"@)
        + CudaSimpleConvs::steps("decoder.ipt_blk4"@)
        + CudaSimpleConvs::steps("decoder.ipt_blk5"@)
}

/// The convolutions are those of the image at all sizes.
#[verifier::opaque]
pub open spec fn ipt_at(v: Seq<CudaSimpleConvs>, s: Store) -> bool {
    &&& v.len() == 5
    &&& v[0].at(s, "decoder.ipt_blk1"@)
    &&& v[1].at(s, "decoder.ipt_blk2"@)
    &&& v[2].at(s, "decoder.ipt_blk3"@)
    &&& v[3].at(s, "decoder.ipt_blk4"@)
    &&& v[4].at(s, "decoder.ipt_blk5"@)
}

/// Loads what the image goes through.
fn load_ipt(m: &CudaModel, wts: &Weights) -> (r: Result<Vec<CudaSimpleConvs>, WeightsError>)
    requires
        wts.wf(),
        m.holds(wts),
    ensures
        match r {
            Ok(v) => clear(wts@, ipt_steps()) && ipt_at(v@, m.store(wts)),
            Err(e) => fails_with(wts@, ipt_steps(), e@),
        },
{
    reveal(ipt_steps);
    reveal(ipt_at);
    let i1 = match CudaSimpleConvs::load(m, wts, "decoder.ipt_blk1") {
        Err(e) => {
            return Err(e);
        },
        Ok(v) => v,
    };
    let i2 = match CudaSimpleConvs::load(m, wts, "decoder.ipt_blk2") {
        Err(e) => {
            return Err(e);
        },
        Ok(v) => v,
    };
    let i3 = match CudaSimpleConvs::load(m, wts, "decoder.ipt_blk3") {
        Err(e) => {
            return Err(e);
        },
        Ok(v) => v,
    };
    let i4 = match CudaSimpleConvs::load(m, wts, "decoder.ipt_blk4") {
        Err(e) => {
            return Err(e);
        },
        Ok(v) => v,
    };
    let i5 = match CudaSimpleConvs::load(m, wts, "decoder.ipt_blk5") {
        Err(e) => {
            return Err(e);
        },
        Ok(v) => v,
    };
    let v: Vec<CudaSimpleConvs> = vec![i1, i2, i3, i4, i5];
    Ok(v)
}

/// The steps by which the list of blocks of the decoder is loaded.
#[verifier::opaque]
pub open spec fn dec_blocks_steps() -> Seq<Step> {
    CudaBasicDecBlk::steps("decoder.decoder_block1"@)
        + CudaBasicDecBlk::steps("decoder.decoder_block2"@)
        + CudaBasicDecBlk::steps("decoder.decoder_block3"@)
        + CudaBasicDecBlk::steps("decoder.decoder_block4"@)
}

/// The blocks are those of the decoder.
#[verifier::opaque]
pub open spec fn dec_blocks_at(v: Seq<CudaBasicDecBlk>, s: Store, p: Plan) -> bool {
    let p1 = CudaBasicDecBlk::after(p, s.w, "decoder.decoder_block1"@);
    let p2 = CudaBasicDecBlk::after(p1, s.w, "decoder.decoder_block2"@);
    let p3 = CudaBasicDecBlk::after(p2, s.w, "decoder.decoder_block3"@);
    &&& v.len() == 4
    &&& v[0].at(s, p, "decoder.decoder_block1"@)
    &&& v[1].at(s, p1, "decoder.decoder_block2"@)
    &&& v[2].at(s, p2, "decoder.decoder_block3"@)
    &&& v[3].at(s, p3, "decoder.decoder_block4"@)
}

/// The plan behind the loading of the list of blocks of the decoder.
#[verifier::opaque]
pub open spec fn dec_blocks_after(p: Plan, w: Checkpoint) -> Plan {
    let p1 = CudaBasicDecBlk::after(p, w, "decoder.decoder_block1"@);
    let p2 = CudaBasicDecBlk::after(p1, w, "decoder.decoder_block2"@);
    let p3 = CudaBasicDecBlk::after(p2, w, "decoder.decoder_block3"@);
    CudaBasicDecBlk::after(p3, w, "decoder.decoder_block4"@)
}

/// Loads the list of blocks of the decoder.
fn load_dec_blocks(
    m: &mut CudaModel,
    wts: &Weights,
) -> (r: Result<Vec<CudaBasicDecBlk>, WeightsError>)
    requires
        wts.wf(),
        old(m).holds(wts),
    ensures
        final(m).weights == old(m).weights,
        match r {
            Ok(v) => {
                &&& clear(wts@, dec_blocks_steps())
                &&& dec_blocks_at(v@, old(m).store(wts), old(m)@)
                &&& final(m)@ == dec_blocks_after(old(m)@, wts@)
            },
            Err(e) => fails_with(wts@, dec_blocks_steps(), e@),
        },
{
    reveal(dec_blocks_steps);
    reveal(dec_blocks_at);
    reveal(dec_blocks_after);
    let b1 = match CudaBasicDecBlk::load(m, wts, "decoder.decoder_block1") {
        Err(e) => {
            return Err(e);
        },
        Ok(v) => v,
    };
    let b2 = match CudaBasicDecBlk::load(m, wts, "decoder.decoder_block2") {
        Err(e) => {
            return Err(e);
        },
        Ok(v) => v,
    };
    let b3 = match CudaBasicDecBlk::load(m, wts, "decoder.decoder_block3") {
        Err(e) => {
            return Err(e);
        },
        Ok(v) => v,
    };
    let b4 = match CudaBasicDecBlk::load(m, wts, "decoder.decoder_block4") {
        Err(e) => {
            return Err(e);
        },
        Ok(v) => v,
    };
    let v: Vec<CudaBasicDecBlk> = vec![b1, b2, b3, b4];
    Ok(v)
}

/// The steps by which attention over all planes is loaded.
#[verifier::opaque]
pub open spec fn planes_steps() -> Seq<Step> {
    CudaGdt::steps(2)
        + CudaGdt::steps(3)
        + CudaGdt::steps(4)
}

/// The attention over the plane is that of the decoder.
#[verifier::opaque]
pub open spec fn planes_at(v: Seq<CudaGdt>, s: Store, p: Plan) -> bool {
    let p1 = CudaGdt::after(p, s.w, 2);
    let p2 = CudaGdt::after(p1, s.w, 3);
    &&& v.len() == 3
    &&& v[0].at(s, p, 2)
    &&& v[1].at(s, p1, 3)
    &&& v[2].at(s, p2, 4)
}

/// The plan behind the loading of attention over all planes.
#[verifier::opaque]
pub open spec fn planes_after(p: Plan, w: Checkpoint) -> Plan {
    let p1 = CudaGdt::after(p, w, 2);
    let p2 = CudaGdt::after(p1, w, 3);
    CudaGdt::after(p2, w, 4)
}

/// Loads attention over all planes.
fn load_planes(m: &mut CudaModel, wts: &Weights) -> (r: Result<Vec<CudaGdt>, WeightsError>)
    requires
        wts.wf(),
        old(m).holds(wts),
    ensures
        final(m).weights == old(m).weights,
        match r {
            Ok(v) => {
                &&& clear(wts@, planes_steps())
                &&& planes_at(v@, old(m).store(wts), old(m)@)
                &&& final(m)@ == planes_after(old(m)@, wts@)
            },
            Err(e) => fails_with(wts@, planes_steps(), e@),
        },
{
    reveal(planes_steps);
    reveal(planes_at);
    reveal(planes_after);
    let g2 = match CudaGdt::load(m, wts, 2) {
        Err(e) => {
            return Err(e);
        },
        Ok(v) => v,
    };
    let g3 = match CudaGdt::load(m, wts, 3) {
        Err(e) => {
            return Err(e);
        },
        Ok(v) => v,
    };
    let g4 = match CudaGdt::load(m, wts, 4) {
        Err(e) => {
            return Err(e);
        },
        Ok(v) => v,
    };
    let v: Vec<CudaGdt> = vec![g2, g3, g4];
    Ok(v)
}

impl CudaDecoder {
    /// The steps by which the decoder is loaded.
    #[verifier::opaque]
    pub open spec fn steps() -> Seq<Step> {
        present("decoder.lateral_block2.conv.weight"@)
            + present("decoder.lateral_block2.conv.bias"@)
            + present("decoder.lateral_block3.conv.weight"@)
            + present("decoder.lateral_block3.conv.bias"@)
            + present("decoder.lateral_block4.conv.weight"@)
            + present("decoder.lateral_block4.conv.bias"@)
            + ipt_steps()
            + dec_blocks_steps()
            + present("decoder.conv_ms_spvn_2.weight"@)
            + present("decoder.conv_ms_spvn_2.bias"@)
            + present("decoder.conv_ms_spvn_3.weight"@)
            + present("decoder.conv_ms_spvn_3.bias"@)
            + present("decoder.conv_ms_spvn_4.weight"@)
            + present("decoder.conv_ms_spvn_4.bias"@)
            + present("decoder.conv_out1.0.weight"@)
            + present("decoder.conv_out1.0.bias"@)
            + planes_steps()
    }

    /// The decoder is the one of the weights.
    #[verifier::opaque]
    pub open spec fn at(&self, s: Store, p: Plan) -> bool {
        let p1 = dec_blocks_after(p, s.w);
        &&& self.ms@.len() == 3
        &&& self.lat2.at(s, "decoder.lateral_block2.conv.weight"@)
        &&& self.lat2b.at(s, "decoder.lateral_block2.conv.bias"@)
        &&& self.lat3.at(s, "decoder.lateral_block3.conv.weight"@)
        &&& self.lat3b.at(s, "decoder.lateral_block3.conv.bias"@)
        &&& self.lat4.at(s, "decoder.lateral_block4.conv.weight"@)
        &&& self.lat4b.at(s, "decoder.lateral_block4.conv.bias"@)
        &&& ipt_at(self.ipt@, s)
        &&& dec_blocks_at(self.blocks@, s, p)
        &&& self.ms@[0].0.at(s, "decoder.conv_ms_spvn_2.weight"@)
        &&& self.ms@[0].1.at(s, "decoder.conv_ms_spvn_2.bias"@)
        &&& self.ms@[1].0.at(s, "decoder.conv_ms_spvn_3.weight"@)
        &&& self.ms@[1].1.at(s, "decoder.conv_ms_spvn_3.bias"@)
        &&& self.ms@[2].0.at(s, "decoder.conv_ms_spvn_4.weight"@)
        &&& self.ms@[2].1.at(s, "decoder.conv_ms_spvn_4.bias"@)
        &&& self.conv_out1_w.at(s, "decoder.conv_out1.0.weight"@)
        &&& self.conv_out1_b.at(s, "decoder.conv_out1.0.bias"@)
        &&& planes_at(self.gdt@, s, p1)
    }

    /// The plan behind the loading of the decoder.
    #[verifier::opaque]
    pub open spec fn after(p: Plan, w: Checkpoint) -> Plan {
        let p1 = dec_blocks_after(p, w);
        planes_after(p1, w)
    }

    /// Loads the decoder.
    pub fn load(m: &mut CudaModel, wts: &Weights) -> (r: Result<CudaDecoder, WeightsError>)
        requires
            wts.wf(),
            old(m).holds(wts),
        ensures
            final(m).weights == old(m).weights,
            match r {
                Ok(v) => {
                    &&& clear(wts@, Self::steps())
                    &&& v.at(old(m).store(wts), old(m)@)
                    &&& final(m)@ == Self::after(old(m)@, wts@)
                },
                Err(e) => fails_with(wts@, Self::steps(), e@),
            },
    {
        reveal(CudaDecoder::steps);
        reveal(CudaDecoder::at);
        reveal(CudaDecoder::after);
        let lat2 = match m.w(wts, "decoder.lateral_block2.conv.weight") {
            Err(e) => {
                return Err(e);
            },
            Ok(v) => v,
        };
        let lat2b = match m.w(wts, "decoder.lateral_block2.conv.bias") {
            Err(e) => {
                return Err(e);
            },
            Ok(v) => v,
        };
        let lat3 = match m.w(wts, "decoder.lateral_block3.conv.weight") {
            Err(e) => {
                return Err(e);
            },
            Ok(v) => v,
        };
        let lat3b = match m.w(wts, "decoder.lateral_block3.conv.bias") {
            Err(e) => {
                return Err(e);
            },
            Ok(v) => v,
        };
        let lat4 = match m.w(wts, "decoder.lateral_block4.conv.weight") {
            Err(e) => {
                return Err(e);
            },
            Ok(v) => v,
        };
        let lat4b = match m.w(wts, "decoder.lateral_block4.conv.bias") {
            Err(e) => {
                return Err(e);
            },
            Ok(v) => v,
        };
        let ipt = match load_ipt(m, wts) {
            Err(e) => {
                return Err(e);
            },
            Ok(v) => v,
        };
        let blocks = match load_dec_blocks(m, wts) {
            Err(e) => {
                return Err(e);
            },
            Ok(v) => v,
        };
        let m2w = match m.w(wts, "decoder.conv_ms_spvn_2.weight") {
            Err(e) => {
                return Err(e);
            },
            Ok(v) => v,
        };
        let m2b = match m.w(wts, "decoder.conv_ms_spvn_2.bias") {
            Err(e) => {
                return Err(e);
            },
            Ok(v) => v,
        };
        let m3w = match m.w(wts, "decoder.conv_ms_spvn_3.weight") {
            Err(e) => {
                return Err(e);
            },
            Ok(v) => v,
        };
        let m3b = match m.w(wts, "decoder.conv_ms_spvn_3.bias") {
            Err(e) => {
                return Err(e);
            },
            Ok(v) => v,
        };
        let m4w = match m.w(wts, "decoder.conv_ms_spvn_4.weight") {
            Err(e) => {
                return Err(e);
            },
            Ok(v) => v,
        };
        let m4b = match m.w(wts, "decoder.conv_ms_spvn_4.bias") {
            Err(e) => {
                return Err(e);
            },
            Ok(v) => v,
        };
        let conv_out1_w = match m.w(wts, "decoder.conv_out1.0.weight") {
            Err(e) => {
                return Err(e);
            },
            Ok(v) => v,
        };
        let conv_out1_b = match m.w(wts, "decoder.conv_out1.0.bias") {
            Err(e) => {
                return Err(e);
            },
            Ok(v) => v,
        };
        let gdt = match load_planes(m, wts) {
            Err(e) => {
                return Err(e);
            },
            Ok(v) => v,
        };
        let ms: Vec<(DW, DW)> = vec![(m2w, m2b), (m3w, m3b), (m4w, m4b)];
        Ok(
            CudaDecoder {
                ipt,
                blocks,
                lat2,
                lat2b,
                lat3,
                lat3b,
                lat4,
                lat4b,
                ms,
                conv_out1_w,
                conv_out1_b,
                gdt,
            },
        )
    }
}

// ---- a stage --------------------------------------------------------------------------

/// The steps by which a block is loaded.
#[verifier::opaque]
pub open spec fn block_steps(prefix: Seq<char>, dim: usize, heads: usize) -> Seq<Step> {
    CudaLayerNorm::steps(prefix + ".norm1"@) + CudaLayerNorm::steps(prefix + ".norm2"@)
        + CudaAttn::steps(prefix + ".attn"@, dim, heads) + CudaMlp::steps(prefix + ".mlp"@)
}

/// The steps by which the first `n` blocks of a stage are loaded.
pub open spec fn stage_block_steps(stage: int, n: int) -> Seq<Step>
    decreases n,
{
    if n <= 0 {
        Seq::empty()
    } else {
        stage_block_steps(stage, n - 1) + block_steps(
            block_prefix(stage, n - 1),
            DIMS@[stage],
            HEADS@[stage],
        )
    }
}

/// The prefix of what leads from a stage to the next.
pub open spec fn down_prefix(stage: int) -> Seq<char> {
    "bb.layers."@ + number_text(stage) + ".downsample"@
}

proof fn lemma_blocks_fail(
    w: Checkpoint,
    stage: int,
    k: int,
    n: int,
    p: Problem<Seq<u8>, Seq<usize>>,
)
    requires
        0 <= k <= n,
        fails_with(w, stage_block_steps(stage, k), p),
    ensures
        fails_with(w, stage_block_steps(stage, n), p),
    decreases n - k,
{
    if k < n {
        assert(fails_with(w, stage_block_steps(stage, k + 1), p));
        lemma_blocks_fail(w, stage, k + 1, n, p);
    }
}

impl CudaSwinStage {
    /// The first `n` blocks are those of the stage.
    pub open spec fn blocks_at(&self, s: Store, stage: int, n: int) -> bool {
        &&& self.dim == DIMS@[stage]
        &&& self.heads == HEADS@[stage]
        &&& self.complete()
        &&& self.blocks@.len() == n
        &&& forall|b: int|
            0 <= b < n ==> (#[trigger] self.blocks@[b]) == (CudaSwinBlock {
                shift: shift_of(b) as usize,
                hd: (DIMS@[stage] / HEADS@[stage]) as usize,
            })
        &&& forall|b: int|
            0 <= b < n ==> (#[trigger] self.ln1@[b]).at(s, block_prefix(stage, b) + ".norm1"@)
        &&& forall|b: int|
            0 <= b < n ==> (#[trigger] self.ln2@[b]).at(s, block_prefix(stage, b) + ".norm2"@)
        &&& forall|b: int|
            0 <= b < n ==> (#[trigger] self.attn@[b]).at(
                s,
                block_prefix(stage, b) + ".attn"@,
                DIMS@[stage],
                HEADS@[stage],
            )
        &&& forall|b: int|
            0 <= b < n ==> (#[trigger] self.mlp@[b]).at(s, block_prefix(stage, b) + ".mlp"@)
    }

    /// The steps by which a stage is loaded.
    #[verifier::opaque]
    pub open spec fn steps(stage: int) -> Seq<Step> {
        let blocks = stage_block_steps(stage, DEPTHS@[stage] as int);
        if stage < 3 {
            blocks + present(down_prefix(stage) + ".norm.weight"@) + present(
                down_prefix(stage) + ".norm.bias"@,
            ) + CudaLinear::steps(down_prefix(stage) + ".reduction.weight"@)
        } else {
            blocks
        }
    }

    /// The stage is the one of the weights.
    #[verifier::opaque]
    pub open spec fn at(&self, s: Store, stage: int) -> bool {
        &&& self.blocks_at(s, stage, DEPTHS@[stage] as int)
        &&& self.ds_norm_w is Some <==> stage < 3
        &&& self.ds_norm_b is Some <==> stage < 3
        &&& self.ds_red is Some <==> stage < 3
        &&& self.ds_norm_w matches Some(d) ==> d.at(s, down_prefix(stage) + ".norm.weight"@)
        &&& self.ds_norm_b matches Some(d) ==> d.at(s, down_prefix(stage) + ".norm.bias"@)
        &&& self.ds_red matches Some(l) ==> l.at(s, down_prefix(stage) + ".reduction.weight"@)
    }

    fn load_block(&mut self, m: &CudaModel, wts: &Weights, stage: usize, b: usize) -> (r: Result<
        (),
        WeightsError,
    >)
        requires
            wts.wf(),
            m.holds(wts),
            stage < 4,
            0 < old(self).heads,
            old(self).blocks_at(m.store(wts), stage as int, b as int),
        ensures
            match r {
                Ok(_) => {
                    &&& clear(
                        wts@,
                        block_steps(
                            block_prefix(stage as int, b as int),
                            DIMS@[stage as int],
                            HEADS@[stage as int],
                        ),
                    )
                    &&& final(self).blocks_at(m.store(wts), stage as int, b + 1)
                    &&& final(self).ds_norm_w == old(self).ds_norm_w
                    &&& final(self).ds_norm_b == old(self).ds_norm_b
                    &&& final(self).ds_red == old(self).ds_red
                },
                Err(e) => fails_with(
                    wts@,
                    block_steps(
                        block_prefix(stage as int, b as int),
                        DIMS@[stage as int],
                        HEADS@[stage as int],
                    ),
                    e@,
                ),
            },
    {
        reveal(block_steps);
        let mut prefix = numbered("bb.layers.", stage, ".blocks.");
        prefix.append(number_string(b).as_str());
        assert(prefix@ == block_prefix(stage as int, b as int));
        let ln1 = match CudaLayerNorm::load(m, wts, joined(prefix.as_str(), ".norm1").as_str()) {
            Err(e) => {
                return Err(e);
            },
            Ok(v) => v,
        };
        let ln2 = match CudaLayerNorm::load(m, wts, joined(prefix.as_str(), ".norm2").as_str()) {
            Err(e) => {
                return Err(e);
            },
            Ok(v) => v,
        };
        let attn = match CudaAttn::load(
            m,
            wts,
            joined(prefix.as_str(), ".attn").as_str(),
            self.dim,
            self.heads,
        ) {
            Err(e) => {
                return Err(e);
            },
            Ok(v) => v,
        };
        let mlp = match CudaMlp::load(m, wts, joined(prefix.as_str(), ".mlp").as_str()) {
            Err(e) => {
                return Err(e);
            },
            Ok(v) => v,
        };
        self.ln1.push(ln1);
        self.ln2.push(ln2);
        self.attn.push(attn);
        self.mlp.push(mlp);
        let shift = if b % 2 == 0 {
            0
        } else {
            WINDOW / 2
        };
        self.blocks.push(CudaSwinBlock { shift, hd: self.dim / self.heads });
        Ok(())
    }

    fn load_blocks(m: &CudaModel, wts: &Weights, stage: usize) -> (r: Result<
        CudaSwinStage,
        WeightsError,
    >)
        requires
            wts.wf(),
            m.holds(wts),
            stage < 4,
        ensures
            match r {
                Ok(v) => {
                    &&& clear(
                        wts@,
                        stage_block_steps(stage as int, DEPTHS@[stage as int] as int),
                    )
                    &&& v.blocks_at(m.store(wts), stage as int, DEPTHS@[stage as int] as int)
                    &&& v.ds_norm_w is None
                    &&& v.ds_norm_b is None
                    &&& v.ds_red is None
                },
                Err(e) => fails_with(
                    wts@,
                    stage_block_steps(stage as int, DEPTHS@[stage as int] as int),
                    e@,
                ),
            },
    {
        let depth = DEPTHS[stage];
        let mut v = CudaSwinStage {
            dim: DIMS[stage],
            heads: HEADS[stage],
            blocks: Vec::new(),
            ln1: Vec::new(),
            ln2: Vec::new(),
            attn: Vec::new(),
            mlp: Vec::new(),
            ds_norm_w: None,
            ds_norm_b: None,
            ds_red: None,
        };
        let mut b: usize = 0;
        while b < depth
            invariant
                wts.wf(),
                m.holds(wts),
                stage < 4,
                0 < v.heads,
                depth == DEPTHS@[stage as int],
                b <= depth,
                v.blocks_at(m.store(wts), stage as int, b as int),
                v.ds_norm_w is None,
                v.ds_norm_b is None,
                v.ds_red is None,
                clear(wts@, stage_block_steps(stage as int, b as int)),
            decreases depth - b,
        {
            match v.load_block(m, wts, stage, b) {
                Err(e) => {
                    proof {
                        assert(fails_with(wts@, stage_block_steps(stage as int, b + 1), e@));
                        lemma_blocks_fail(wts@, stage as int, b + 1, depth as int, e@);
                    }
                    return Err(e);
                },
                Ok(_) => {},
            }
            assert(clear(wts@, stage_block_steps(stage as int, b + 1)));
            b += 1;
        }
        Ok(v)
    }

    /// Loads a stage.
    pub fn load(m: &CudaModel, wts: &Weights, stage: usize) -> (r: Result<
        CudaSwinStage,
        WeightsError,
    >)
        requires
            wts.wf(),
            m.holds(wts),
            stage < 4,
        ensures
            match r {
                Ok(v) => clear(wts@, Self::steps(stage as int)) && v.at(
                    m.store(wts),
                    stage as int,
                ),
                Err(e) => fails_with(wts@, Self::steps(stage as int), e@),
            },
    {
        reveal(CudaSwinStage::steps);
        reveal(CudaSwinStage::at);
        let mut v = match Self::load_blocks(m, wts, stage) {
            Err(e) => {
                return Err(e);
            },
            Ok(v) => v,
        };
        if stage >= 3 {
            return Ok(v);
        }
        let prefix = numbered("bb.layers.", stage, ".downsample");
        let nw = match m.w(wts, joined(prefix.as_str(), ".norm.weight").as_str()) {
            Err(e) => {
                return Err(e);
            },
            Ok(d) => d,
        };
        let nb = match m.w(wts, joined(prefix.as_str(), ".norm.bias").as_str()) {
            Err(e) => {
                return Err(e);
            },
            Ok(d) => d,
        };
        let red = match CudaLinear::load(
            m,
            wts,
            joined(prefix.as_str(), ".reduction.weight").as_str(),
        ) {
            Err(e) => {
                return Err(e);
            },
            Ok(l) => l,
        };
        v.ds_norm_w = Some(nw);
        v.ds_norm_b = Some(nb);
        v.ds_red = Some(red);
        Ok(v)
    }
}

// ---- the network ----------------------------------------------------------------------

/// The steps by which the norms of the stages are loaded.
#[verifier::opaque]
pub open spec fn norms_steps() -> Seq<Step> {
    present("bb.norm0.weight"@) + present("bb.norm0.bias"@) + present("bb.norm1.weight"@)
        + present("bb.norm1.bias"@) + present("bb.norm2.weight"@) + present("bb.norm2.bias"@)
        + present("bb.norm3.weight"@) + present("bb.norm3.bias"@)
}

/// The norms are those of the stages.
#[verifier::opaque]
pub open spec fn norms_at(a: Seq<DW>, b: Seq<DW>, s: Store) -> bool {
    &&& a.len() == 4
    &&& b.len() == 4
    &&& a[0].at(s, "bb.norm0.weight"@)
    &&& b[0].at(s, "bb.norm0.bias"@)
    &&& a[1].at(s, "bb.norm1.weight"@)
    &&& b[1].at(s, "bb.norm1.bias"@)
    &&& a[2].at(s, "bb.norm2.weight"@)
    &&& b[2].at(s, "bb.norm2.bias"@)
    &&& a[3].at(s, "bb.norm3.weight"@)
    &&& b[3].at(s, "bb.norm3.bias"@)
}

fn load_norms(m: &CudaModel, wts: &Weights) -> (r: Result<(Vec<DW>, Vec<DW>), WeightsError>)
    requires
        wts.wf(),
        m.holds(wts),
    ensures
        match r {
            Ok((a, b)) => clear(wts@, norms_steps()) && norms_at(a@, b@, m.store(wts)),
            Err(e) => fails_with(wts@, norms_steps(), e@),
        },
{
    reveal(norms_steps);
    reveal(norms_at);
    let w0 = match m.w(wts, "bb.norm0.weight") {
        Err(e) => {
            return Err(e);
        },
        Ok(v) => v,
    };
    let b0 = match m.w(wts, "bb.norm0.bias") {
        Err(e) => {
            return Err(e);
        },
        Ok(v) => v,
    };
    let w1 = match m.w(wts, "bb.norm1.weight") {
        Err(e) => {
            return Err(e);
        },
        Ok(v) => v,
    };
    let b1 = match m.w(wts, "bb.norm1.bias") {
        Err(e) => {
            return Err(e);
        },
        Ok(v) => v,
    };
    let w2 = match m.w(wts, "bb.norm2.weight") {
        Err(e) => {
            return Err(e);
        },
        Ok(v) => v,
    };
    let b2 = match m.w(wts, "bb.norm2.bias") {
        Err(e) => {
            return Err(e);
        },
        Ok(v) => v,
    };
    let w3 = match m.w(wts, "bb.norm3.weight") {
        Err(e) => {
            return Err(e);
        },
        Ok(v) => v,
    };
    let b3 = match m.w(wts, "bb.norm3.bias") {
        Err(e) => {
            return Err(e);
        },
        Ok(v) => v,
    };
    let a: Vec<DW> = vec![w0, w1, w2, w3];
    let b: Vec<DW> = vec![b0, b1, b2, b3];
    Ok((a, b))
}

/// The steps by which the list of stages of the backbone is loaded.
#[verifier::opaque]
pub open spec fn stages_steps() -> Seq<Step> {
    CudaSwinStage::steps(0)
        + CudaSwinStage::steps(1)
        + CudaSwinStage::steps(2)
        + CudaSwinStage::steps(3)
}

/// The stages are those of the backbone.
#[verifier::opaque]
pub open spec fn stages_at(v: Seq<CudaSwinStage>, s: Store) -> bool {
    &&& v.len() == 4
    &&& v[0].at(s, 0)
    &&& v[1].at(s, 1)
    &&& v[2].at(s, 2)
    &&& v[3].at(s, 3)
}

/// Loads the list of stages of the backbone.
fn load_stages(m: &CudaModel, wts: &Weights) -> (r: Result<Vec<CudaSwinStage>, WeightsError>)
    requires
        wts.wf(),
        m.holds(wts),
    ensures
        match r {
            Ok(v) => clear(wts@, stages_steps()) && stages_at(v@, m.store(wts)),
            Err(e) => fails_with(wts@, stages_steps(), e@),
        },
{
    reveal(stages_steps);
    reveal(stages_at);
    let s0 = match CudaSwinStage::load(m, wts, 0) {
        Err(e) => {
            return Err(e);
        },
        Ok(v) => v,
    };
    let s1 = match CudaSwinStage::load(m, wts, 1) {
        Err(e) => {
            return Err(e);
        },
        Ok(v) => v,
    };
    let s2 = match CudaSwinStage::load(m, wts, 2) {
        Err(e) => {
            return Err(e);
        },
        Ok(v) => v,
    };
    let s3 = match CudaSwinStage::load(m, wts, 3) {
        Err(e) => {
            return Err(e);
        },
        Ok(v) => v,
    };
    let v: Vec<CudaSwinStage> = vec![s0, s1, s2, s3];
    Ok(v)
}

impl CudaWeights {
    /// The steps by which the network is loaded.
    #[verifier::opaque]
    pub open spec fn steps() -> Seq<Step> {
        norms_steps() + present("bb.patch_embed.proj.weight"@)
            + present("bb.patch_embed.proj.bias"@)
            + present("bb.patch_embed.norm.weight"@)
            + present("bb.patch_embed.norm.bias"@)
            + stages_steps()
            + CudaBasicDecBlk::steps("squeeze_module.0"@)
            + CudaDecoder::steps()
    }

    /// The network is the one of the weights.
    #[verifier::opaque]
    pub open spec fn at(&self, s: Store, p: Plan) -> bool {
        let p1 = CudaBasicDecBlk::after(p, s.w, "squeeze_module.0"@);
        &&& norms_at(self.norm_w@, self.norm_b@, s)
        &&& self.proj_w.at(s, "bb.patch_embed.proj.weight"@)
        &&& self.proj_b.at(s, "bb.patch_embed.proj.bias"@)
        &&& self.pe_norm_w.at(s, "bb.patch_embed.norm.weight"@)
        &&& self.pe_norm_b.at(s, "bb.patch_embed.norm.bias"@)
        &&& stages_at(self.stages@, s)
        &&& self.squeeze.at(s, p, "squeeze_module.0"@)
        &&& self.dec.at(s, p1)
    }

    /// The plan behind the loading of the network.
    #[verifier::opaque]
    pub open spec fn after(p: Plan, w: Checkpoint) -> Plan {
        let p1 = CudaBasicDecBlk::after(p, w, "squeeze_module.0"@);
        CudaDecoder::after(p1, w)
    }

    /// Loads the network.
    pub fn load(m: &mut CudaModel, wts: &Weights) -> (r: Result<CudaWeights, WeightsError>)
        requires
            wts.wf(),
            old(m).holds(wts),
        ensures
            final(m).weights == old(m).weights,
            match r {
                Ok(v) => {
                    &&& clear(wts@, Self::steps())
                    &&& v.at(old(m).store(wts), old(m)@)
                    &&& final(m)@ == Self::after(old(m)@, wts@)
                },
                Err(e) => fails_with(wts@, Self::steps(), e@),
            },
    {
        reveal(CudaWeights::steps);
        reveal(CudaWeights::at);
        reveal(CudaWeights::after);
        let (norm_w, norm_b) = match load_norms(m, wts) {
            Err(e) => {
                return Err(e);
            },
            Ok(v) => v,
        };
        let proj_w = match m.w(wts, "bb.patch_embed.proj.weight") {
            Err(e) => {
                return Err(e);
            },
            Ok(v) => v,
        };
        let proj_b = match m.w(wts, "bb.patch_embed.proj.bias") {
            Err(e) => {
                return Err(e);
            },
            Ok(v) => v,
        };
        let pe_norm_w = match m.w(wts, "bb.patch_embed.norm.weight") {
            Err(e) => {
                return Err(e);
            },
            Ok(v) => v,
        };
        let pe_norm_b = match m.w(wts, "bb.patch_embed.norm.bias") {
            Err(e) => {
                return Err(e);
            },
            Ok(v) => v,
        };
        let stages = match load_stages(m, wts) {
            Err(e) => {
                return Err(e);
            },
            Ok(v) => v,
        };
        let squeeze = match CudaBasicDecBlk::load(m, wts, "squeeze_module.0") {
            Err(e) => {
                return Err(e);
            },
            Ok(v) => v,
        };
        let dec = match CudaDecoder::load(m, wts) {
            Err(e) => {
                return Err(e);
            },
            Ok(v) => v,
        };
        Ok(
            CudaWeights {
                proj_w,
                proj_b,
                pe_norm_w,
                pe_norm_b,
                norm_w,
                norm_b,
                stages,
                squeeze,
                dec,
            },
        )
    }
}

impl CudaModel {
    /// Looks up every weight of the network, and plans the upload of its batch norms.
    pub fn load_weights(&mut self, wts: &Weights) -> (r: Result<CudaWeights, WeightsError>)
        requires
            wts.wf(),
            old(self).holds(wts),
        ensures
            final(self).weights == old(self).weights,
            match r {
                Ok(v) => {
                    &&& clear(wts@, CudaWeights::steps())
                    &&& v.at(old(self).store(wts), old(self)@)
                    &&& final(self)@ == CudaWeights::after(old(self)@, wts@)
                },
                Err(e) => fails_with(wts@, CudaWeights::steps(), e@),
            },
    {
        CudaWeights::load(self, wts)
    }
}

impl CudaNet {
    /// Plans the upload of all weights and looks up those of the network.
    pub fn load(wts: &Weights) -> (r: Result<CudaNet, WeightsError>)
        requires
            wts.wf(),
        ensures
            ({
                let names = wts.tensors.listed();
                let (p, bufs) = uploads(start_plan(), wts@, names, names.len() as int);
                match r {
                    Ok(n) => {
                        &&& forall|i: int|
                            0 <= i < names.len() ==> problem_of(wts@, #[trigger] names[i]) is None
                        &&& clear(wts@, CudaWeights::steps())
                        &&& n.w.at(Store { w: wts@, names, bufs }, p)
                        &&& n.m@ == CudaWeights::after(p, wts@)
                    },
                    Err(e) => first_problem(wts@, names, e@) || (forall|i: int|
                        0 <= i < names.len() ==> problem_of(wts@, #[trigger] names[i]) is None)
                        && fails_with(wts@, CudaWeights::steps(), e@),
                }
            }),
    {
        let mut m = match CudaModel::load(wts) {
            Err(e) => {
                return Err(e);
            },
            Ok(m) => m,
        };
        match m.load_weights(wts) {
            Err(e) => Err(e),
            Ok(w) => Ok(CudaNet { m, w }),
        }
    }
}

} // verus!
