//! The per-iteration shrink: a linear scale factor `sqrt(budget / size)`,
//! applied to a dimension and rounded half up, computed exactly in integers.
use vstd::prelude::*;

verus! {

/// `n` is `dim * sqrt(budget / size)` rounded to the nearest integer, halves up:
/// `n - 1/2 <= dim * sqrt(budget / size) < n + 1/2`, squared and cleared of
/// fractions.
pub open spec fn rounds_to(n: int, dim: int, budget: int, size: int) -> bool {
    &&& 0 <= n
    &&& (n == 0 || (2 * n - 1) * (2 * n - 1) * size <= 4 * dim * dim * budget)
    &&& 4 * dim * dim * budget < (2 * n + 1) * (2 * n + 1) * size
}

proof fn lemma_top_rounds_above(dim: int, budget: int, size: int)
    requires
        0 <= dim,
        0 <= budget < size,
    ensures
        4 * dim * dim * budget < (2 * (dim + 1) - 1) * (2 * (dim + 1) - 1) * size,
{
    assert(4 * dim * dim * budget <= 4 * dim * dim * size) by (nonlinear_arith)
        requires 0 <= dim, 0 <= budget < size;
    assert((2 * (dim + 1) - 1) * (2 * (dim + 1) - 1) * size == 4 * dim * dim * size + (4 * dim + 1) * size)
        by (nonlinear_arith);
    assert((4 * dim + 1) * size > 0) by (nonlinear_arith)
        requires 0 <= dim, 0 < size;
}

/// A rounded scaled dimension is unique.
pub proof fn lemma_rounds_to_unique(n: int, m: int, dim: int, budget: int, size: int)
    requires
        0 < size,
        rounds_to(n, dim, budget, size),
        rounds_to(m, dim, budget, size),
    ensures
        n == m,
{
    if n < m {
        assert((2 * n + 1) * (2 * n + 1) * size <= (2 * m - 1) * (2 * m - 1) * size) by (nonlinear_arith)
            requires 0 <= n < m, 0 < size;
    } else if m < n {
        assert((2 * m + 1) * (2 * m + 1) * size <= (2 * n - 1) * (2 * n - 1) * size) by (nonlinear_arith)
            requires 0 <= m < n, 0 < size;
    }
}

/// When the budget is below the size, the scale factor is below one, so the
/// rounded dimension never exceeds the unscaled one.
pub proof fn lemma_rounds_to_at_most_dim(n: int, dim: int, budget: int, size: int)
    requires
        0 <= dim,
        0 <= budget < size,
        rounds_to(n, dim, budget, size),
    ensures
        n <= dim,
{
    if n > dim {
        lemma_top_rounds_above(dim, budget, size);
        assert((2 * (dim + 1) - 1) * (2 * (dim + 1) - 1) * size <= (2 * n - 1) * (2 * n - 1) * size)
            by (nonlinear_arith)
            requires 0 <= dim, dim + 1 <= n, 0 < size;
    }
}

/// Whether `(2n - 1)^2 * size <= 4 * dim^2 * budget`, the lower half of
/// `rounds_to`; `n == 0` always passes.
fn at_or_below(n: u32, dim: u16, budget: u64, size: u64) -> (r: bool)
    requires
        n <= dim as u32 + 1,
    ensures
        r == (n == 0 || (2 * n - 1) * (2 * n - 1) * size <= 4 * dim * dim * budget),
{
    if n == 0 {
        return true;
    }
    let k: u128 = 2 * (n as u128) - 1;
    let d: u128 = dim as u128;
    assert(k * k <= 0x4_0000_0000) by (nonlinear_arith)
        requires k <= 131071;
    assert(k * k * (size as u128) <= 0x4_0000_0000 * 0xffff_ffff_ffff_ffff) by (nonlinear_arith)
        requires k * k <= 0x4_0000_0000, size <= 0xffff_ffff_ffff_ffff;
    assert(d * d <= 0xffff * 0xffff) by (nonlinear_arith)
        requires d <= 0xffff;
    assert(4 * (d * d) * (budget as u128) <= 4 * 0xffff * 0xffff * 0xffff_ffff_ffff_ffff) by (nonlinear_arith)
        requires d * d <= 0xffff * 0xffff, budget <= 0xffff_ffff_ffff_ffff;
    let lhs: u128 = k * k * (size as u128);
    let rhs: u128 = 4 * (d * d) * (budget as u128);
    assert(4 * (d * d) * budget == 4 * d * d * budget) by (nonlinear_arith);
    lhs <= rhs
}

/// The next dimension for a raster of dimension `dim` whose last encoding
/// took `size` bytes against a `budget` below it: `dim * sqrt(budget / size)`,
/// rounded to the nearest integer.
pub fn next_dimension(dim: u16, budget: u64, size: u64) -> (r: u16)
    requires
        budget < size,
    ensures
        rounds_to(r as int, dim as int, budget as int, size as int),
        r <= dim,
{
    let mut lo: u32 = 0;
    let mut hi: u32 = dim as u32 + 1;
    proof {
        lemma_top_rounds_above(dim as int, budget as int, size as int);
    }
    while hi - lo > 1
        invariant
            lo < hi <= dim as u32 + 1,
            lo == 0 || (2 * lo - 1) * (2 * lo - 1) * size <= 4 * dim * dim * budget,
            4 * dim * dim * budget < (2 * hi - 1) * (2 * hi - 1) * size,
        decreases hi - lo,
    {
        let mid: u32 = lo + (hi - lo) / 2;
        if at_or_below(mid, dim, budget, size) {
            lo = mid;
        } else {
            hi = mid;
        }
    }
    assert(hi == lo + 1);
    assert(2 * hi - 1 == 2 * lo + 1);
    proof {
        lemma_rounds_to_at_most_dim(lo as int, dim as int, budget as int, size as int);
    }
    lo as u16
}

} // verus!
