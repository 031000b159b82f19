//! What attention and the perceptron do in exact arithmetic.

use crate::attention::{softmax_spec, Head, WindowAttention, MINUS_HALF};
use crate::exact_maps::{bias_of, lemma_dot, lemma_linear};
use crate::exact_pointwise::lemma_softmax;
use crate::index::{lemma_flat, lemma_unflat};
use crate::linear::{gelu_all, held, Mlp};
use crate::pointwise::gelu_of;
use crate::reals::{
    exact, lemma_plain_numbers, lemma_single, lemma_total_same, lemma_total_scaled, single, total,
};
use crate::scalar::{computes, Arith, Scalar};
use crate::weights::Checkpoint;
use vstd::prelude::*;

verus! {

/// How much position `i` of window `b` attends to position `j` in head `h`, before softmax: the
/// sum over the features of the head of the query of `i` times the key of `j`, times the scale,
/// plus the bias of their relative position, plus their mask. `qkv` has a row for each position,
/// with its queries, its keys and its values one behind the other, the heads in turn in each.
pub open spec fn attention_of<T>(
    v: spec_fn(T) -> real,
    qkv: Seq<T>,
    dim: int,
    heads: int,
    scale: T,
    table: Seq<T>,
    index: Seq<usize>,
    mask: Option<Seq<T>>,
    n_win: int,
    b: int,
    h: int,
    i: int,
    j: int,
) -> real {
    let hd = dim / heads;
    total(
        |d: int|
            v(qkv[(b * 144 + i) * (3 * dim) + (h * hd + d)]) * v(
                qkv[(b * 144 + j) * (3 * dim) + (dim + h * hd + d)],
            ),
        hd,
    ) * v(scale) + v(table[index[i * 144 + j] * heads + h]) + (match mask {
        Some(k) => v(k[(b % n_win) * 20736 + (i * 144 + j)]),
        None => 0real,
    })
}

proof fn lemma_score<T>(m: Arith<T>, v: spec_fn(T) -> real, g: Head<T>, i: int, j: int)
    requires
        exact(m, v),
    ensures
        v(g.score(m, i, j)) == attention_of(
            v,
            g.qkv,
            g.dim,
            g.heads,
            g.scale,
            g.table,
            g.index,
            g.mask,
            g.n_win,
            g.b,
            g.h,
            i,
            j,
        ),
{
    let hd = g.dim / g.heads;
    let (q, k) = (g.at(0, i), g.at(1, j));
    lemma_dot(m, v, g.qkv, q, g.qkv, k, hd);
    lemma_total_same(
        |d: int| v(g.qkv[q + d]) * v(g.qkv[k + d]),
        |d: int|
            v(g.qkv[(g.b * 144 + i) * (3 * g.dim) + (g.h * hd + d)]) * v(
                g.qkv[(g.b * 144 + j) * (3 * g.dim) + (g.dim + g.h * hd + d)],
            ),
        hd,
    );
}

proof fn lemma_mix<T>(m: Arith<T>, v: spec_fn(T) -> real, g: Head<T>, i: int, d: int, n: int)
    requires
        exact(m, v),
    ensures
        v(g.mix(m, i, d, n)) == total(
            |j: int| v(softmax_spec(m, g.scores(m, i))[j]) * v(g.qkv[g.at(2, j) + d]),
            n,
        ),
    decreases n,
{
    lemma_plain_numbers(m, v);
    if n > 0 {
        lemma_mix(m, v, g, i, d, n - 1);
    }
}

/// Each share of softmax times the sum of the exponentials is its exponential.
proof fn lemma_share<T>(m: Arith<T>, v: spec_fn(T) -> real, row: Seq<T>, j: int)
    requires
        exact(m, v),
        0 <= j < row.len(),
    ensures
        total(|k: int| v((m.exponential)(row[k])), row.len() as int) * v(softmax_spec(m, row)[j])
            == v((m.exponential)(row[j])),
{
    let n = row.len() as int;
    let s = |k: int| v(softmax_spec(m, row)[k]);
    let e = |k: int| v((m.exponential)(row[k]));
    let (sj, ej) = (s(j), e(j));
    let cross = |k: int| sj * e(k);
    lemma_softmax(m, v, row, j, j);
    assert forall|k: int| 0 <= k < n implies #[trigger] cross(k) == ej * s(k) by {
        lemma_softmax(m, v, row, j, k);
        let (a, b) = (s(k), ej);
        assert(a * b == b * a) by (nonlinear_arith);
    }
    lemma_total_scaled(cross, s, ej, n);
    lemma_total_scaled(cross, e, sj, n);
    let t = total(e, n);
    assert(sj * t == t * sj) by (nonlinear_arith);
    assert(ej * 1real == ej) by (nonlinear_arith);
}

impl<T: Scalar> WindowAttention<T> {
    /// What comes out of the heads for feature `f` of position `i` of window `b` is the mean of
    /// that feature of the values of the window, each weighed with the exponential of how much
    /// position `i` attends to it.
    pub proof fn lemma_attention(
        self,
        m: Arith<T>,
        v: spec_fn(T) -> real,
        x: Seq<T>,
        n_win: int,
        mask: Option<Seq<T>>,
        windows: int,
        b: int,
        i: int,
        f: int,
        row: Seq<T>,
    )
        requires
            exact(m, v),
            0 < self.dim,
            0 < self.heads,
            0 < self.dim as int / self.heads as int,
            x.len() == (windows * 144) * self.dim,
            0 <= b < windows,
            0 <= i < 144,
            0 <= f < self.heads * (self.dim as int / self.heads as int),
            f < self.dim,
            row.len() == 144,
            forall|j: int|
                0 <= j < 144 ==> v(#[trigger] row[j]) == attention_of(
                    v,
                    self.qkv.out(m, x),
                    self.dim as int,
                    self.heads as int,
                    self.scale,
                    self.bias_table@,
                    self.index@,
                    mask,
                    n_win,
                    b,
                    f / (self.dim as int / self.heads as int),
                    i,
                    j,
                ),
        ensures
            total(|j: int| v((m.exponential)(row[j])), 144) * v(
                self.heads_out(m, x, n_win, mask)[(b * 144 + i) * self.dim + f],
            ) == total(
                |j: int|
                    v((m.exponential)(row[j])) * v(
                        self.qkv.out(m, x)[(b * 144 + j) * (3 * self.dim) + (2 * self.dim + f)],
                    ),
                144,
            ),
    {
        let dim = self.dim as int;
        let hd = dim / self.heads as int;
        let (h, d) = (f / hd, f % hd);
        let g = self.head(m, x, n_win, mask, b, h);
        let at = b * 144 + i;
        lemma_flat(b, windows, i, 144);
        lemma_unflat(b, i, 144);
        lemma_flat(at, windows * 144, f, dim);
        lemma_unflat(at, f, dim);
        assert(x.len() as int / (144 * dim) == windows) by {
            assert((windows * 144) * dim == windows * (144 * dim) + 0) by (nonlinear_arith);
            lemma_unflat(windows, 0, 144 * dim);
        }
        assert(self.heads_out(m, x, n_win, mask)[at * dim + f] == g.mix(m, i, d, 144));
        lemma_mix(m, v, g, i, d, 144);
        let own = g.scores(m, i);
        let e = |j: int| v((m.exponential)(row[j]));
        let e_own = |j: int| v((m.exponential)(own[j]));
        assert forall|j: int| 0 <= j < 144 implies #[trigger] e(j) == e_own(j) by {
            lemma_score(m, v, g, i, j);
            assert(v(row[j]) == v(own[j]));
        }
        lemma_total_same(e, e_own, 144);
        let t = total(e, 144);
        let qkv = self.qkv.out(m, x);
        let part = |j: int| v(softmax_spec(m, own)[j]) * v(qkv[g.at(2, j) + d]);
        let whole = |j: int|
            v((m.exponential)(row[j])) * v(qkv[(b * 144 + j) * (3 * self.dim) + (2 * self.dim + f)]);
        vstd::arithmetic::div_mod::lemma_fundamental_div_mod(f, hd);
        assert(h * hd == hd * h) by (nonlinear_arith);
        assert forall|j: int| 0 <= j < 144 implies #[trigger] whole(j) == t * part(j) by {
            lemma_share(m, v, own, j);
            assert(e(j) == e_own(j));
            assert(g.at(2, j) + d == (b * 144 + j) * (3 * self.dim) + (2 * self.dim + f));
            let (s, a) = (v(softmax_spec(m, own)[j]), v(qkv[g.at(2, j) + d]));
            assert((t * s) * a == t * (s * a)) by (nonlinear_arith);
        }
        lemma_total_scaled(whole, part, t, 144);
        lemma_total_same(
            |j: int| v(softmax_spec(m, g.scores(m, i))[j]) * v(g.qkv[g.at(2, j) + d]),
            part,
            144,
        );
    }

    /// The scale of attention that was loaded is one over the root of the number of features of a
    /// head.
    pub proof fn lemma_loaded_scale(
        self,
        m: Arith<T>,
        v: spec_fn(T) -> real,
        c: Checkpoint,
        prefix: Seq<char>,
        dim: int,
        heads: int,
    )
        requires
            computes(m),
            exact(m, v),
            self.loaded(c, prefix, dim, heads),
            0 < dim / heads <= usize::MAX,
        ensures
            v(self.scale) > 0real,
            (v(self.scale) * v(self.scale)) * (dim / heads) as real == 1real,
    {
        assert(single(MINUS_HALF) == -1real / 2real) by {
            lemma_single(crate::pointwise::HALF, 126, 0);
            lemma_plain_numbers(m, v);
            assert(single(MINUS_HALF) == -single(crate::pointwise::HALF)) by {
                reveal(single);
            }
        }
        let n = (m.of_usize)((dim / heads) as usize);
        assert(v(n) == (dim / heads) as real);
        assert(v((m.bits)(MINUS_HALF)) == -1real / 2real);
        assert(self.scale == (m.power)(n, (m.bits)(MINUS_HALF)));
    }

    /// What attention gives for output `o` of a position is the sum over what comes out of the
    /// heads for this position, each times its weight, plus the bias.
    pub proof fn lemma_projected(
        self,
        m: Arith<T>,
        v: spec_fn(T) -> real,
        x: Seq<T>,
        n_win: int,
        mask: Option<Seq<T>>,
        r: int,
        o: int,
    )
        requires
            exact(m, v),
            0 < self.proj.ic,
            0 <= o < self.proj.oc,
            0 <= r < x.len() as int / self.proj.ic as int,
        ensures
            v(self.out(m, x, n_win, mask)[r * self.proj.oc + o]) == total(
                |k: int|
                    v(self.proj.w@[o * self.proj.ic + k]) * v(
                        self.heads_out(m, x, n_win, mask)[r * self.proj.ic + k],
                    ),
                self.proj.ic as int,
            ) + bias_of(v, held(self.proj.b), o),
    {
        lemma_linear(
            m,
            v,
            self.heads_out(m, x, n_win, mask),
            self.proj.w@,
            held(self.proj.b),
            self.proj.ic as int,
            self.proj.oc as int,
            r,
            o,
        );
    }
}

impl<T: Scalar> Mlp<T> {
    /// What the perceptron gives for output `o` of a row is the sum over the hidden features of
    /// the GELU of the feature times its weight, plus the bias.
    pub proof fn lemma_perceptron(
        self,
        m: Arith<T>,
        v: spec_fn(T) -> real,
        x: Seq<T>,
        rows: int,
        r: int,
        o: int,
    )
        requires
            exact(m, v),
            0 < self.fc1.ic,
            0 < self.fc1.oc,
            self.fc2.ic == self.fc1.oc,
            x.len() == rows * self.fc1.ic,
            0 <= r < rows,
            0 <= o < self.fc2.oc,
        ensures
            v(self.out(m, x)[r * self.fc2.oc + o]) == total(
                |k: int|
                    v(self.fc2.w@[o * self.fc2.ic + k]) * v(
                        gelu_of(m, self.fc1.out(m, x)[r * self.fc1.oc + k]),
                    ),
                self.fc2.ic as int,
            ) + bias_of(v, held(self.fc2.b), o),
    {
        let (ic, hc, oc) = (self.fc1.ic as int, self.fc1.oc as int, self.fc2.oc as int);
        lemma_unflat(rows, 0, ic);
        let hidden = gelu_all(m, self.fc1.out(m, x));
        assert(0 <= rows * hc) by (nonlinear_arith)
            requires
                0 <= rows,
                0 < hc,
        ;
        assert(hidden.len() == rows * hc);
        lemma_unflat(rows, 0, hc);
        lemma_linear(m, v, hidden, self.fc2.w@, held(self.fc2.b), hc, oc, r, o);
        let f = |k: int| v(self.fc2.w@[o * hc + k]) * v(hidden[r * hc + k]);
        let g = |k: int|
            v(self.fc2.w@[o * self.fc2.ic + k]) * v(
                gelu_of(m, self.fc1.out(m, x)[r * self.fc1.oc + k]),
            );
        assert forall|k: int| 0 <= k < hc implies #[trigger] f(k) == g(k) by {
            lemma_flat(r, rows, k, hc);
        }
        lemma_total_same(f, g, hc);
    }
}

} // verus!
