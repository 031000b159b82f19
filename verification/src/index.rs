//! Facts about positions in flattened arrays.

use vstd::arithmetic::div_mod::{lemma_fundamental_div_mod, lemma_fundamental_div_mod_converse};
use vstd::prelude::*;

verus! {

/// Column `b` of row `a` of an `n` by `m` array is at `a * m + b`, in bounds.
pub proof fn lemma_flat(a: int, n: int, b: int, m: int)
    requires
        0 <= a < n,
        0 <= b < m,
    ensures
        0 <= a * m,
        0 <= a * m + b < n * m,
        a * m <= a * m + b,
        (a + 1) * m <= n * m,
        (a + 1) * m == a * m + m,
{
    assert(0 <= a * m && a * m + m <= n * m && (a + 1) * m == a * m + m) by (nonlinear_arith)
        requires
            0 <= a < n,
            0 <= b < m,
    ;
}

/// The row and the column of a flat position are found by division.
pub proof fn lemma_unflat(a: int, b: int, m: int)
    requires
        0 <= b < m,
    ensures
        (a * m + b) / m == a,
        (a * m + b) % m == b,
{
    lemma_fundamental_div_mod_converse(a * m + b, m, a, b);
}

/// A flat position of an `n` by `m` array has its row and its column in bounds.
pub proof fn lemma_split(i: int, n: int, m: int)
    requires
        0 <= i < n * m,
        0 <= m,
    ensures
        0 < m,
        0 < n,
        0 <= i / m < n,
        0 <= i % m < m,
        (i / m) * m + i % m == i,
{
    assert(0 < m && 0 < n) by (nonlinear_arith)
        requires
            0 <= i < n * m,
            0 <= m,
    ;
    lemma_fundamental_div_mod(i, m);
    assert(0 <= i / m < n && (i / m) * m + i % m == i) by (nonlinear_arith)
        requires
            0 <= i < n * m,
            0 < m,
            i == m * (i / m) + i % m,
            0 <= i % m < m,
    ;
}

} // verus!
