//! What a part of the network reads from the weights, step by step.
//!
//! Each part states the steps by which it is loaded. Loading fails with the problem of
//! the first step that has one, and succeeds where none has.

use crate::text::text;
use crate::weights::{
    data_len, data_problem, entry, shaped_problem, Checkpoint, Problem, Weights, WeightsError,
};
use vstd::prelude::*;
use vstd::utf8::encode_utf8;

verus! {

/// One step of loading.
pub enum Step {
    /// The numbers of a tensor.
    Data(Seq<char>),
    /// The numbers of a tensor of a given shape.
    Shaped(Seq<char>, Seq<usize>),
    /// The shape of a tensor, of at least this many dimensions.
    Dims(Seq<char>, int),
    /// The shape of a tensor of two dimensions.
    Matrix(Seq<char>),
    /// That a tensor has at least as many numbers as another one.
    AsLong(Seq<char>, Seq<char>),
}

/// What keeps a step from being made.
pub open spec fn step_problem(w: Checkpoint, s: Step) -> Option<Problem<Seq<u8>, Seq<usize>>> {
    match s {
        Step::Data(name) => data_problem(w, name),
        Step::Shaped(name, shape) => shaped_problem(w, name, shape),
        Step::Dims(name, n) => match entry(w, name) {
            None => Some(Problem::Missing { name: encode_utf8(name) }),
            Some(t) => if t.shape.len() < n {
                Some(Problem::TooFewDims { name: encode_utf8(name) })
            } else {
                None
            },
        },
        Step::Matrix(name) => match entry(w, name) {
            None => Some(Problem::Missing { name: encode_utf8(name) }),
            Some(t) => if t.shape.len() != 2 {
                Some(Problem::NotMatrix { name: encode_utf8(name) })
            } else {
                None
            },
        },
        Step::AsLong(name, other) => if data_len(w, name) < data_len(w, other) {
            Some(Problem::TooShort { name: encode_utf8(name) })
        } else {
            None
        },
    }
}

/// Every step can be made.
pub open spec fn clear(w: Checkpoint, steps: Seq<Step>) -> bool {
    forall|i: int| 0 <= i < steps.len() ==> step_problem(w, #[trigger] steps[i]) is None
}

/// The first step that cannot be made has this problem.
pub open spec fn fails_with(
    w: Checkpoint,
    steps: Seq<Step>,
    p: Problem<Seq<u8>, Seq<usize>>,
) -> bool {
    exists|k: int|
        0 <= k < steps.len() && step_problem(w, #[trigger] steps[k]) == Some(p) && clear(
            w,
            steps.take(k),
        )
}

/// The single step of reading the numbers of a tensor.
pub open spec fn reads(name: Seq<char>) -> Seq<Step> {
    seq![Step::Data(name)]
}

/// The single step of looking a tensor up.
pub open spec fn present(name: Seq<char>) -> Seq<Step> {
    seq![Step::Dims(name, 0)]
}

/// The steps by which batch norm is loaded.
#[verifier::opaque]
pub open spec fn bn_steps(prefix: Seq<char>) -> Seq<Step> {
    reads(prefix + ".weight"@) + reads(prefix + ".bias"@) + reads(prefix + ".running_mean"@)
        + reads(prefix + ".running_var"@) + seq![
        Step::AsLong(prefix + ".running_var"@, prefix + ".weight"@),
    ] + seq![Step::AsLong(prefix + ".bias"@, prefix + ".weight"@)] + seq![
        Step::AsLong(prefix + ".running_mean"@, prefix + ".weight"@),
    ]
}

/// One step can be made where it has no problem.
pub broadcast proof fn lemma_one_clear(w: Checkpoint, s: Step)
    ensures
        #[trigger] clear(w, seq![s]) <==> step_problem(w, s) is None,
{
    assert(seq![s][0] == s);
}

/// One step fails with its own problem.
pub broadcast proof fn lemma_one_fails(w: Checkpoint, s: Step, p: Problem<Seq<u8>, Seq<usize>>)
    ensures
        #[trigger] fails_with(w, seq![s], p) <==> step_problem(w, s) == Some(p),
{
    let t = seq![s];
    assert(t[0] == s);
    assert(clear(w, t.take(0)));
    if step_problem(w, s) == Some(p) {
        assert(step_problem(w, t[0]) == Some(p));
    }
}

/// Steps one after the other can be made where both parts can.
pub broadcast proof fn lemma_both_clear(w: Checkpoint, a: Seq<Step>, b: Seq<Step>)
    ensures
        #[trigger] clear(w, a + b) <==> clear(w, a) && clear(w, b),
{
    let c = a + b;
    if clear(w, c) {
        assert forall|i: int| 0 <= i < a.len() implies step_problem(
            w,
            #[trigger] a[i],
        ) is None by {
            assert(c[i] == a[i]);
        }
        assert forall|i: int| 0 <= i < b.len() implies step_problem(
            w,
            #[trigger] b[i],
        ) is None by {
            assert(c[a.len() + i] == b[i]);
        }
    }
}

/// Steps one after the other fail as the first part does, or, where it can be made, as
/// the second does.
pub broadcast proof fn lemma_either_fails(
    w: Checkpoint,
    a: Seq<Step>,
    b: Seq<Step>,
    p: Problem<Seq<u8>, Seq<usize>>,
)
    ensures
        #[trigger] fails_with(w, a + b, p) <==> fails_with(w, a, p) || (clear(w, a) && fails_with(
            w,
            b,
            p,
        )),
{
    let c = a + b;
    if fails_with(w, c, p) {
        let k = choose|k: int|
            0 <= k < c.len() && step_problem(w, #[trigger] c[k]) == Some(p) && clear(w, c.take(k));
        if k < a.len() {
            assert(c.take(k) =~= a.take(k));
            assert(c[k] == a[k]);
        } else {
            assert(c.take(k) =~= a + b.take(k - a.len()));
            lemma_both_clear(w, a, b.take(k - a.len()));
            assert(c[k] == b[k - a.len()]);
        }
    }
    if fails_with(w, a, p) {
        let k = choose|k: int|
            0 <= k < a.len() && step_problem(w, #[trigger] a[k]) == Some(p) && clear(w, a.take(k));
        assert(c.take(k) =~= a.take(k));
        assert(c[k] == a[k]);
    }
    if clear(w, a) && fails_with(w, b, p) {
        let k = choose|k: int|
            0 <= k < b.len() && step_problem(w, #[trigger] b[k]) == Some(p) && clear(w, b.take(k));
        let at = a.len() + k;
        assert(c.take(at) =~= a + b.take(k));
        lemma_both_clear(w, a, b.take(k));
        assert(c[at] == b[k]);
    }
}

/// No steps at all can be made.
pub broadcast proof fn lemma_none_clear(w: Checkpoint)
    ensures
        #[trigger] clear(w, Seq::<Step>::empty()),
{
}

pub broadcast group group_steps {
    lemma_one_clear,
    lemma_one_fails,
    lemma_both_clear,
    lemma_either_fails,
    lemma_none_clear,
}

/// Steps that can all be made do not fail.
pub proof fn lemma_clear_or_fails(w: Checkpoint, steps: Seq<Step>, p: Problem<Seq<u8>, Seq<usize>>)
    ensures
        !(clear(w, steps) && fails_with(w, steps, p)),
{
}

/// Dimension `i` of a tensor, which is to have at least `n` dimensions.
pub fn dimension(wts: &Weights, name: &str, n: usize, i: usize) -> (r: Result<usize, WeightsError>)
    requires
        wts.wf(),
        i < n,
    ensures
        match r {
            Ok(d) => step_problem(wts@, Step::Dims(name@, n as int)) is None && d == entry(
                wts@,
                name@,
            )->0.shape[i as int],
            Err(e) => step_problem(wts@, Step::Dims(name@, n as int)) == Some(e@),
        },
{
    match wts.shape(name) {
        Err(e) => Err(e),
        Ok(s) => if s.len() < n {
            Err(Problem::TooFewDims { name: text(name) })
        } else {
            Ok(s[i])
        },
    }
}

} // verus!
