//! Arithmetic that is exact.
//!
//! The formulas of the network are written over a table of primitives, and say of every number
//! type what is computed, step by step. What the steps are for shows where the primitives are
//! those of the real numbers: there the formulas obey the laws of the operations that they stand
//! for. `exact` says that a table is of this kind; the laws are stated under it.

use crate::scalar::Arith;
use vstd::prelude::*;

verus! {

// ---- sums -----------------------------------------------------------------------------

/// `f(0) + .. + f(n - 1)`.
pub open spec fn total(f: spec_fn(int) -> real, n: int) -> real
    decreases n,
{
    if n <= 0 {
        0real
    } else {
        total(f, n - 1) + f(n - 1)
    }
}

/// Sums of the same summands are the same.
pub proof fn lemma_total_same(f: spec_fn(int) -> real, g: spec_fn(int) -> real, n: int)
    requires
        forall|k: int| 0 <= k < n ==> #[trigger] f(k) == g(k),
    ensures
        total(f, n) == total(g, n),
    decreases n,
{
    if n > 0 {
        lemma_total_same(f, g, n - 1);
        assert(f(n - 1) == g(n - 1));
    }
}

/// A sum of nothing but zeros is zero.
pub proof fn lemma_total_zero(f: spec_fn(int) -> real, n: int)
    requires
        forall|k: int| 0 <= k < n ==> #[trigger] f(k) == 0real,
    ensures
        total(f, n) == 0real,
    decreases n,
{
    if n > 0 {
        lemma_total_zero(f, n - 1);
        assert(f(n - 1) == 0real);
    }
}

/// A factor of all summands is a factor of the sum.
pub proof fn lemma_total_scaled(f: spec_fn(int) -> real, g: spec_fn(int) -> real, a: real, n: int)
    requires
        forall|k: int| 0 <= k < n ==> #[trigger] f(k) == a * g(k),
    ensures
        total(f, n) == a * total(g, n),
    decreases n,
{
    if n > 0 {
        lemma_total_scaled(f, g, a, n - 1);
        assert(f(n - 1) == a * g(n - 1));
        let (s, t) = (total(g, n - 1), g(n - 1));
        assert(a * (s + t) == a * s + a * t) by (nonlinear_arith);
    } else {
        assert(a * (0real) == 0real) by (nonlinear_arith);
    }
}

/// A sum of positive summands is positive.
pub proof fn lemma_total_positive(f: spec_fn(int) -> real, n: int)
    requires
        forall|k: int| 0 <= k < n ==> #[trigger] f(k) > 0real,
    ensures
        total(f, n) >= 0real,
        0 < n ==> total(f, n) > 0real,
        forall|k: int| 0 <= k < n ==> #[trigger] f(k) <= total(f, n),
    decreases n,
{
    if n > 0 {
        lemma_total_positive(f, n - 1);
        assert(f(n - 1) > 0real);
    }
}

/// Summands in two runs, the second behind the first.
pub proof fn lemma_total_split(
    f: spec_fn(int) -> real,
    g: spec_fn(int) -> real,
    h: spec_fn(int) -> real,
    a: int,
    b: int,
)
    requires
        0 <= a,
        0 <= b,
        forall|k: int| 0 <= k < a ==> #[trigger] g(k) == f(k),
        forall|k: int| 0 <= k < b ==> #[trigger] h(k) == f(a + k),
    ensures
        total(f, a + b) == total(g, a) + total(h, b),
    decreases b,
{
    if b > 0 {
        lemma_total_split(f, g, h, a, b - 1);
        assert(h(b - 1) == f(a + (b - 1)));
    } else {
        lemma_total_same(g, f, a);
    }
}

// ---- single-precision numbers ---------------------------------------------------------

/// 2 to the power of `n`.
pub open spec fn two_to(n: int) -> real
    decreases
            (if n < 0 {
                -n
            } else {
                n
            }),
{
    if n == 0 {
        1real
    } else if n > 0 {
        two_to(n - 1) * 2real
    } else {
        two_to(n + 1) / 2real
    }
}

/// The bit pattern is that of a number, not of an infinity or of none.
pub open spec fn is_finite(bits: u32) -> bool {
    (bits as int / 0x80_0000) % 256 < 255
}

/// The real number with this IEEE 754 single-precision bit pattern.
#[verifier::opaque]
pub open spec fn single(bits: u32) -> real {
    let e = (bits as int / 0x80_0000) % 256;
    let f = bits as int % 0x80_0000;
    let size = if e == 0 {
        f as real * two_to(-149)
    } else {
        (0x80_0000 + f) as real * two_to(e - 150)
    };
    if bits >= 0x8000_0000 {
        -size
    } else {
        size
    }
}

// ---- exact tables ---------------------------------------------------------------------

/// The table `m` computes exactly, where each of its numbers stands for the real number that `v`
/// gives for it.
pub open spec fn exact<T>(m: Arith<T>, v: spec_fn(T) -> real) -> bool {
    &&& forall|b: u32| is_finite(b) ==> #[trigger] v((m.bits)(b)) == single(b)
    &&& forall|n: usize| #[trigger] v((m.of_usize)(n)) == n as int as real
    &&& forall|a: T, b: T| #[trigger] v((m.plus)(a, b)) == v(a) + v(b)
    &&& forall|a: T, b: T| #[trigger] v((m.minus)(a, b)) == v(a) - v(b)
    &&& forall|a: T, b: T| #[trigger] v((m.times)(a, b)) == v(a) * v(b)
    &&& forall|a: T, b: T| v(b) != 0real ==> #[trigger] v((m.over)(a, b)) == v(a) / v(b)
    &&& forall|a: T| #[trigger] v((m.negated)(a)) == -v(a)
    &&& forall|a: T|
        #[trigger] v((m.magnitude)(a)) == (if v(a) < 0real {
            -v(a)
        } else {
            v(a)
        })
    &&& forall|a: T, b: T|
        #[trigger] v((m.larger)(a, b)) == (if v(a) < v(b) {
            v(b)
        } else {
            v(a)
        })
    &&& forall|a: T, b: T| #[trigger] (m.less)(a, b) == (v(a) < v(b))
    &&& forall|a: T, b: T| #[trigger] (m.same)(a, b) == (v(a) == v(b))
    &&& exact_roots(m, v)
    &&& exact_inverse_roots(m, v)
    &&& exact_powers(m, v)
    &&& exact_integers(m, v)
}

/// Square roots are exact.
pub open spec fn exact_roots<T>(m: Arith<T>, v: spec_fn(T) -> real) -> bool {
    forall|a: T|
        v(a) >= 0real ==> #[trigger] v((m.square_root)(a)) >= 0real && v(
            (m.square_root)(a),
        ) * v((m.square_root)(a)) == v(a)
}

/// The power of -1/2 is one over the square root.
pub open spec fn exact_inverse_roots<T>(m: Arith<T>, v: spec_fn(T) -> real) -> bool {
    forall|a: T, b: T|
        v(a) > 0real && v(b) == -1real / 2real ==> #[trigger] v((m.power)(a, b)) > 0real && (v(
            (m.power)(a, b),
        ) * v((m.power)(a, b))) * v(a) == 1real
}

/// Exponentials are positive, grow with the exponent and turn sums into products.
pub open spec fn exact_powers<T>(m: Arith<T>, v: spec_fn(T) -> real) -> bool {
    &&& forall|a: T| #[trigger] v((m.exponential)(a)) > 0real
    &&& forall|a: T, b: T|
        v(a) < v(b) ==> #[trigger] v((m.exponential)(a)) < #[trigger] v((m.exponential)(b))
    &&& forall|a: T, b: T|
        v(a) == v(b) ==> #[trigger] v((m.exponential)(a)) == #[trigger] v((m.exponential)(b))
    &&& forall|a: T, b: T|
        #[trigger] v((m.exponential)((m.minus)(a, b))) * v((m.exponential)(b)) == v(
            (m.exponential)(a),
        )
    &&& forall|a: T|
        #[trigger] v((m.exponential)((m.negated)(a))) * v((m.exponential)(a)) == 1real
}

/// Numbers are rounded down to the integer below them or to the nearest one, and integers are
/// taken over as they are.
pub open spec fn exact_integers<T>(m: Arith<T>, v: spec_fn(T) -> real) -> bool {
    &&& forall|a: T, n: int|
        #![trigger (m.rounded_down)(a), is_integer(n)]
        n as real <= v(a) && v(a) < n as real + 1real ==> v((m.rounded_down)(a)) == n as real
    &&& forall|a: T, n: int|
        #![trigger (m.rounded)(a), is_integer(n)]
        n as real - 1real / 2real < v(a) && v(a) < n as real + 1real / 2real ==> v((m.rounded)(a))
            == n as real
    &&& forall|a: T, n: int|
        #![trigger (m.to_u8)(a), is_integer(n)]
        v(a) == n as real && 0 <= n <= 255 ==> (m.to_u8)(a) == n
    &&& forall|a: T, n: int|
        #![trigger (m.to_usize)(a), is_integer(n)]
        v(a) == n as real && 0 <= n <= usize::MAX ==> (m.to_usize)(a) == n
    &&& forall|a: T, n: int|
        #![trigger (m.to_isize)(a), is_integer(n)]
        v(a) == n as real && isize::MIN <= n <= isize::MAX ==> (m.to_isize)(a) == n
}

/// Names an integer.
pub open spec fn is_integer(n: int) -> bool {
    true
}

proof fn lemma_two_to_positive(n: int)
    ensures
        two_to(n) > 0real,
    decreases
            (if n < 0 {
                -n
            } else {
                n
            }),
{
    if n > 0 {
        lemma_two_to_positive(n - 1);
    } else if n < 0 {
        lemma_two_to_positive(n + 1);
    }
}

/// The value of a bit pattern, from its exponent and its fraction.
pub proof fn lemma_single(bits: u32, e: int, f: int)
    requires
        bits == e * 0x80_0000 + f,
        0 < e < 255,
        0 <= f < 0x80_0000,
    ensures
        is_finite(bits),
        single(bits) == (0x80_0000 + f) as real * two_to(e - 150),
        single(bits) > 0real,
{
    reveal(single);
    lemma_two_to_positive(e - 150);
    let (a, b) = ((0x80_0000 + f) as real, two_to(e - 150));
    assert(a * b > 0real) by (nonlinear_arith)
        requires
            a > 0real,
            b > 0real,
    ;
}

/// The value of a bit pattern, from its exponent, its fraction and the power of 2 that the
/// exponent stands for.
pub proof fn lemma_as_quotient(bits: u32, e: int, f: int, d: real)
    requires
        bits == e * 0x80_0000 + f,
        0 < e < 255,
        0 <= f < 0x80_0000,
        two_to(e - 150) == 1real / d,
        d > 0real,
    ensures
        is_finite(bits),
        single(bits) == (0x80_0000 + f) as real / d,
{
    lemma_single(bits, e, f);
    let k = (0x80_0000 + f) as real;
    assert(k * (1real / d) == k / d) by (nonlinear_arith)
        requires
            d > 0real,
    ;
}

/// Some powers of 2.
pub proof fn lemma_powers()
    ensures
        two_to(-23) == 1real / 0x80_0000real,
        two_to(-25) == 1real / 0x200_0000real,
        two_to(-26) == 1real / 0x400_0000real,
        two_to(-31) == 1real / 0x8000_0000real,
        two_to(-16) == 1real / 0x1_0000real,
{
    reveal_with_fuel(two_to, 32);
}

/// 0, 1/2, 1 and 2 stand for themselves, and what keeps a divisor from being zero is positive.
pub proof fn lemma_plain_numbers<T>(m: Arith<T>, v: spec_fn(T) -> real)
    requires
        exact(m, v),
    ensures
        v(m.zero()) == 0real,
        v((m.bits)(crate::pointwise::HALF)) == 1real / 2real,
        v(m.one()) == 1real,
        v((m.bits)(crate::graph::TWO)) == 2real,
        v((m.bits)(crate::linear::LN_EPS)) > 0real,
{
    assert(single(0) == 0real) by {
        reveal(single);
        assert(0real * two_to(-149) == 0real) by (nonlinear_arith);
    }
    assert(v((m.bits)(0)) == single(0));
    lemma_single(crate::pointwise::HALF, 126, 0);
    lemma_single(crate::scalar::ONE, 127, 0);
    lemma_single(crate::graph::TWO, 128, 0);
    lemma_single(crate::linear::LN_EPS, 110, 0x27_c5ac);
    reveal_with_fuel(two_to, 25);
    let t = two_to(-22);
    assert(t == 1real / 0x40_0000real);
    assert(two_to(-23) == 1real / 0x80_0000real);
    assert(two_to(-24) == 1real / 0x100_0000real);
    let k = (0x80_0000 + 0int) as real;
    assert(k == 0x80_0000real);
    assert(k * (1real / 0x40_0000real) == 2real && k * (1real / 0x80_0000real)
        == 1real && k * (1real / 0x100_0000real) == 1real / 2real)
        by (nonlinear_arith)
        requires
            k == 0x80_0000real,
    ;
}

} // verus!
