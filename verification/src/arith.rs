//! Facts about row-major offsets used by the index proofs.
use vstd::prelude::*;
use vstd::arithmetic::div_mod::{lemma_fundamental_div_mod, lemma_mod_bound};

verus! {

/// A row-major offset `a * n + b` with `a < m`, `b < n` is below `m * n`.
pub proof fn lemma_offset2(a: int, b: int, m: int, n: int)
    requires
        0 <= a < m,
        0 <= b < n,
    ensures
        0 <= a * n + b < m * n,
{
    assert(0 <= a * n) by (nonlinear_arith)
        requires 0 <= a, 0 <= n;
    assert(a * n + n <= m * n) by (nonlinear_arith)
        requires a + 1 <= m, 0 <= n;
}

/// `o / n < m` whenever `o < m * n`.
pub proof fn lemma_div_lt(o: int, m: int, n: int)
    requires
        0 <= o < m * n,
        n > 0,
    ensures
        0 <= o / n < m,
        0 <= o % n < n,
        o == (o / n) * n + o % n,
{
    lemma_fundamental_div_mod(o, n);
    lemma_mod_bound(o, n);
    assert(n * (o / n) == (o / n) * n) by (nonlinear_arith);
    assert(o / n >= 0) by (nonlinear_arith)
        requires o >= 0, n > 0;
    if o / n >= m {
        assert((o / n) * n >= m * n) by (nonlinear_arith)
            requires o / n >= m, n > 0;
    }
}

/// Products of counts are non-negative.
pub proof fn lemma_mul_nonneg(a: int, b: int)
    requires
        0 <= a,
        0 <= b,
    ensures
        0 <= a * b,
{
    assert(0 <= a * b) by (nonlinear_arith)
        requires 0 <= a, 0 <= b;
}

} // verus!

verus! {

/// Division and remainder recover the coordinates of a row-major offset.
pub proof fn lemma_div_mod_offset(a: int, b: int, n: int)
    requires
        0 <= a,
        0 <= b < n,
    ensures
        (a * n + b) / n == a,
        (a * n + b) % n == b,
{
    vstd::arithmetic::div_mod::lemma_fundamental_div_mod_converse(a * n + b, n, a, b);
}

} // verus!
