//! Fixed-point arithmetic for the solver.
//!
//! A field value is an `i64` holding the real quantity times [`SCALE`].
//! Every value stored in a field lies in `[-VMAX, VMAX]`; arithmetic is
//! carried out in `i128` (wide enough for every intermediate the solver
//! forms) and the result of each cell update is saturated back into that
//! range by [`sat_val`]. Division truncates toward zero, like the
//! hardware's, via [`tdiv`].

use vstd::prelude::*;

verus! {

/// Fixed-point scale: an `i64` field value v stands for the real number
/// v / SCALE.
pub const SCALE: i64 = 1_000_000;

/// SCALE * SCALE, the denominator of a product of two SCALE-scaled factors.
pub const SCALE_SQ: i64 = 1_000_000_000_000;

/// Largest magnitude a stored field value may have (10^6 in real units).
pub const VMAX: i64 = 1_000_000_000_000;

/// Largest grid side the solver accepts; keeps every intermediate of the
/// relaxation and advection arithmetic well inside `i128`.
pub const NMAX: usize = 4096;

/// Largest magnitude accepted for the `speed`, `viscosity` and `diffusion`
/// parameters (100 in real units).
pub const PARAM_MAX: i64 = 100_000_000;

/// Number of Gauss-Seidel sweeps run by every relaxation solve.
pub const ITERS: usize = 20;

/// Default fractional density decay per tick (0.0005 in real units).
pub const DISPERSION_DEFAULT: i64 = 500;

/// Row-major cell index of column x, row y on a grid of side n.
pub open spec fn idx(x: int, y: int, n: int) -> int {
    x + y * n
}

/// Integer division truncating toward zero (what the executable code
/// computes); `den` is expected to be positive.
pub open spec fn tdiv(num: int, den: int) -> int {
    if num >= 0 {
        num / den
    } else {
        -((-num) / den)
    }
}

/// Saturation of an intermediate result into the stored range.
pub open spec fn sat_val(v: int) -> i64 {
    if v > VMAX {
        VMAX
    } else if v < -VMAX {
        (-VMAX) as i64
    } else {
        v as i64
    }
}

/// Every element of the sequence lies in the stored range.
pub open spec fn in_range(s: Seq<i64>) -> bool {
    forall|i: int| 0 <= i < s.len() ==> -VMAX <= #[trigger] s[i] <= VMAX
}

/// Every element of the sequence is zero.
pub open spec fn all_zero(s: Seq<i64>) -> bool {
    forall|i: int| 0 <= i < s.len() ==> #[trigger] s[i] == 0
}

/// The all-zero field of a grid of side n.
pub open spec fn zero_field(n: int) -> Seq<i64> {
    Seq::new((n * n) as nat, |c: int| 0i64)
}

pub proof fn lemma_tdiv_zero(den: int)
    requires
        den > 0,
    ensures
        tdiv(0, den) == 0,
{
    vstd::arithmetic::div_mod::lemma_div_multiples_vanish(0, den);
}

pub proof fn lemma_tdiv_nonneg(num: int, den: int)
    requires
        0 <= num,
        0 < den,
    ensures
        0 <= tdiv(num, den),
{
    vstd::arithmetic::div_mod::lemma_div_multiples_vanish(0, den);
    vstd::arithmetic::div_mod::lemma_div_is_ordered(0, num, den);
}

/// Division of an exact multiple recovers the factor.
pub proof fn lemma_tdiv_exact(q: int, den: int)
    requires
        den > 0,
    ensures
        tdiv(q * den, den) == q,
{
    vstd::arithmetic::div_mod::lemma_div_multiples_vanish(q, den);
    assert(den * q == q * den) by (nonlinear_arith);
    if q * den < 0 {
        assert(-(q * den) == (-q) * den) by (nonlinear_arith);
        vstd::arithmetic::div_mod::lemma_div_multiples_vanish(-q, den);
        assert(den * -q == (-q) * den) by (nonlinear_arith);
    }
}

/// Truncating division cannot leave `[-bnd, bnd]` when the numerator stays
/// within `bnd * den`.
pub proof fn lemma_tdiv_bound(num: int, den: int, bnd: int)
    requires
        den > 0,
        0 <= bnd,
        -(bnd * den) <= num <= bnd * den,
    ensures
        -bnd <= tdiv(num, den) <= bnd,
{
    vstd::arithmetic::div_mod::lemma_div_multiples_vanish(bnd, den);
    assert(den * bnd == bnd * den) by (nonlinear_arith);
    if num >= 0 {
        vstd::arithmetic::div_mod::lemma_div_is_ordered(0, num, den);
        vstd::arithmetic::div_mod::lemma_div_is_ordered(num, bnd * den, den);
        vstd::arithmetic::div_mod::lemma_div_multiples_vanish(0, den);
    } else {
        vstd::arithmetic::div_mod::lemma_div_is_ordered(0, -num, den);
        vstd::arithmetic::div_mod::lemma_div_is_ordered(-num, bnd * den, den);
        vstd::arithmetic::div_mod::lemma_div_multiples_vanish(0, den);
    }
}

/// A nonnegative numerator strictly below `b * den` divides to less than b.
pub proof fn lemma_tdiv_below(num: int, den: int, b: int)
    requires
        den > 0,
        0 <= num,
        num < b * den,
    ensures
        0 <= tdiv(num, den) < b,
{
    vstd::arithmetic::div_mod::lemma_div_multiples_vanish(0, den);
    vstd::arithmetic::div_mod::lemma_div_is_ordered(0, num, den);
    vstd::arithmetic::div_mod::lemma_fundamental_div_mod(num, den);
    let q = num / den;
    assert(q * den <= num) by {
        assert(den * q + num % den == num);
        assert(den * q == q * den) by (nonlinear_arith);
    }
    assert(q < b) by {
        if q >= b {
            assert(b * den <= q * den) by (nonlinear_arith)
                requires den > 0 && b <= q;
        }
    }
}

/// What remains after subtracting `den` times the quotient: the fundamental
/// identity for a nonnegative truncating division.
pub proof fn lemma_tdiv_rem(num: int, den: int)
    requires
        den > 0,
        0 <= num,
    ensures
        tdiv(num, den) * den <= num < tdiv(num, den) * den + den,
{
    vstd::arithmetic::div_mod::lemma_fundamental_div_mod(num, den);
    let q = num / den;
    assert(den * q == q * den) by (nonlinear_arith);
}

/// A cell's flat index determines its coordinates: `idx(x, y, n)` splits
/// back into x and y by remainder and quotient.
pub proof fn lemma_idx_bounds(x: int, y: int, n: int)
    requires
        0 < n,
        0 <= x < n,
        0 <= y < n,
    ensures
        0 <= idx(x, y, n) < n * n,
        idx(x, y, n) % n == x,
        idx(x, y, n) / n == y,
{
    vstd::arithmetic::div_mod::lemma_fundamental_div_mod_converse_div(x + y * n, n, y, x);
    vstd::arithmetic::div_mod::lemma_fundamental_div_mod_converse_mod(x + y * n, n, y, x);
    assert(x + y * n < n * n) by (nonlinear_arith)
        requires 0 <= x < n && 0 <= y < n;
}

/// Every flat index below `n * n` is `idx` of its remainder and quotient.
pub proof fn lemma_cell_coords(c: int, n: int)
    requires
        0 < n,
        0 <= c < n * n,
    ensures
        0 <= c % n < n,
        0 <= c / n < n,
        idx(c % n, c / n, n) == c,
{
    vstd::arithmetic::div_mod::lemma_fundamental_div_mod(c, n);
    lemma_tdiv_below(c, n, n);
    assert(n * (c / n) == (c / n) * n) by (nonlinear_arith);
}

/// Truncating division of `num` by a positive `den`, computed through
/// unsigned machine division on the magnitude.
pub fn tdiv_exec(num: i128, den: i128) -> (r: i128)
    requires
        den > 0,
        num > i128::MIN,
    ensures
        r as int == tdiv(num as int, den as int),
        num >= 0 ==> 0 <= r <= num,
        num < 0 ==> num <= r <= 0,
{
    proof {
        if num >= 0 {
            vstd::arithmetic::div_mod::lemma_div_multiples_vanish(0, den as int);
            vstd::arithmetic::div_mod::lemma_div_is_ordered(0, num as int, den as int);
            vstd::arithmetic::div_mod::lemma_div_is_ordered_by_denominator(num as int, 1, den as int);
        } else {
            vstd::arithmetic::div_mod::lemma_div_multiples_vanish(0, den as int);
            vstd::arithmetic::div_mod::lemma_div_is_ordered(0, -(num as int), den as int);
            vstd::arithmetic::div_mod::lemma_div_is_ordered_by_denominator(-(num as int), 1, den as int);
        }
    }
    if num >= 0 {
        ((num as u128) / (den as u128)) as i128
    } else {
        let m: u128 = (-num) as u128;
        -((m / (den as u128)) as i128)
    }
}

/// Saturation of a wide intermediate into the stored `i64` range.
pub fn sat_exec(v: i128) -> (r: i64)
    ensures
        r == sat_val(v as int),
        -VMAX <= r <= VMAX,
{
    if v > VMAX as i128 {
        VMAX
    } else if v < -(VMAX as i128) {
        -VMAX
    } else {
        v as i64
    }
}

/// Row-major index as executable code, on `u32` coordinates as the grid
/// stores them.
pub fn ix(x: u32, y: u32, size: u32) -> (r: usize)
    requires
        size as int <= NMAX as int,
        x < size,
        y < size,
    ensures
        r as int == idx(x as int, y as int, size as int),
        r < size as int * size as int,
{
    proof {
        assert((x as int) + (y as int) * (size as int) < (size as int) * (size as int))
            by (nonlinear_arith)
            requires x < size && y < size;
        assert((size as int) * (size as int) <= (NMAX as int) * (NMAX as int))
            by (nonlinear_arith)
            requires 0 <= size as int <= NMAX as int;
    }
    (x + y * size) as usize
}

} // verus!
