//! Gauss-Seidel relaxation, the implicit linear solve shared by diffusion
//! and by the pressure step of projection.
//!
//! One sweep walks the interior cells in column-major order (x outer, y
//! inner) and replaces each cell with
//! `sat(tdiv(prev[c] * uf + af * (cur[left] + cur[right] + cur[down] +
//! cur[up]), den))`, reading the partially updated current buffer; after
//! each of the [`ITERS`] sweeps the boundary is re-enforced. Diffusion
//! instantiates `uf = SCALE`, `af = a`, `den = SCALE + 4 a`; the pressure
//! solve instantiates `uf = af = 1`, `den = 4`.

use vstd::prelude::*;

use crate::bnd::{BoundaryKind, lemma_sb_in_range, lemma_sb_zero, sb, set_bnd};
use crate::nums::{
    ITERS, NMAX, SCALE, VMAX, all_zero, idx, in_range, ix, lemma_idx_bounds, lemma_tdiv_bound,
    lemma_tdiv_zero, sat_val, sat_exec, tdiv, tdiv_exec,
};

verus! {

/// Largest neighbour factor `af` any caller forms (diffusion's
/// `speed * rate * (n-2)^2 / SCALE` stays well below it).
pub const AF_CAP: i128 = 1_000_000_000_000_000_000;

/// Largest self factor `uf` any caller forms (`SCALE` for diffusion).
pub const UF_CAP: i128 = 1_000_000;

/// Largest denominator any caller forms (`SCALE + 4 af` for diffusion).
pub const DEN_CAP: i128 = 10_000_000_000_000_000_000;

/// The relaxation update of one interior cell, reading the partially
/// updated current buffer `cur` and the source field `prev`.
pub open spec fn ls_cell(
    cur: Seq<i64>,
    prev: Seq<i64>,
    af: int,
    uf: int,
    den: int,
    n: int,
    x: int,
    y: int,
) -> i64 {
    sat_val(
        tdiv(
            prev[idx(x, y, n)] * uf + af * (cur[idx(x - 1, y, n)] + cur[idx(x + 1, y, n)] + cur[idx(
                x,
                y - 1,
                n,
            )] + cur[idx(x, y + 1, n)]),
            den,
        ),
    )
}

/// Interior-cell coordinates of the cell of rank `k` in sweep order
/// (column-major: x advances once y has run through the interior).
pub open spec fn sweep_x(k: int, n: int) -> int {
    1 + k / (n - 2)
}

pub open spec fn sweep_y(k: int, n: int) -> int {
    1 + k % (n - 2)
}

/// The field after the first `k` cell updates of one relaxation sweep that
/// started from `cur0`.
pub open spec fn ls_sweep(
    cur0: Seq<i64>,
    prev: Seq<i64>,
    af: int,
    uf: int,
    den: int,
    n: int,
    k: int,
) -> Seq<i64>
    decreases k,
{
    if k <= 0 {
        cur0
    } else {
        let cur = ls_sweep(cur0, prev, af, uf, den, n, k - 1);
        let x = sweep_x(k - 1, n);
        let y = sweep_y(k - 1, n);
        cur.update(idx(x, y, n), ls_cell(cur, prev, af, uf, den, n, x, y))
    }
}

/// The field after `it` full sweeps, each followed by boundary enforcement
/// of kind `b`.
pub open spec fn ls_iters(
    cur0: Seq<i64>,
    prev: Seq<i64>,
    af: int,
    uf: int,
    den: int,
    b: BoundaryKind,
    n: int,
    it: int,
) -> Seq<i64>
    decreases it,
{
    if it <= 0 {
        cur0
    } else {
        sb(
            b,
            ls_sweep(
                ls_iters(cur0, prev, af, uf, den, b, n, it - 1),
                prev,
                af,
                uf,
                den,
                n,
                (n - 2) * (n - 2),
            ),
            n,
        )
    }
}

/// A partial sweep touches only interior cells: length is kept and every
/// cell it wrote is saturated, so the field stays in range.
pub proof fn lemma_ls_sweep_in_range(
    cur0: Seq<i64>,
    prev: Seq<i64>,
    af: int,
    uf: int,
    den: int,
    n: int,
    k: int,
)
    requires
        3 <= n,
        cur0.len() == n * n,
        in_range(cur0),
        0 <= k <= (n - 2) * (n - 2),
    ensures
        ls_sweep(cur0, prev, af, uf, den, n, k).len() == n * n,
        in_range(ls_sweep(cur0, prev, af, uf, den, n, k)),
    decreases k,
{
    if k > 0 {
        lemma_ls_sweep_in_range(cur0, prev, af, uf, den, n, k - 1);
        let cur = ls_sweep(cur0, prev, af, uf, den, n, k - 1);
        let x = sweep_x(k - 1, n);
        let y = sweep_y(k - 1, n);
        lemma_sweep_coords(k - 1, n);
        lemma_idx_bounds(x, y, n);
        let s = cur.update(idx(x, y, n), ls_cell(cur, prev, af, uf, den, n, x, y));
        assert forall|i: int| 0 <= i < s.len() implies -VMAX <= #[trigger] s[i] <= VMAX by {
            if i == idx(x, y, n) {
                assert(-VMAX <= ls_cell(cur, prev, af, uf, den, n, x, y) <= VMAX);
            }
        }
    }
}

/// On all-zero current and source fields a sweep changes nothing.
pub proof fn lemma_ls_sweep_zero(
    cur0: Seq<i64>,
    prev: Seq<i64>,
    af: int,
    uf: int,
    den: int,
    n: int,
    k: int,
)
    requires
        3 <= n,
        cur0.len() == n * n,
        prev.len() == n * n,
        all_zero(cur0),
        all_zero(prev),
        den >= 1,
        0 <= k <= (n - 2) * (n - 2),
    ensures
        ls_sweep(cur0, prev, af, uf, den, n, k) == cur0,
    decreases k,
{
    if k > 0 {
        lemma_ls_sweep_zero(cur0, prev, af, uf, den, n, k - 1);
        let x = sweep_x(k - 1, n);
        let y = sweep_y(k - 1, n);
        lemma_sweep_coords(k - 1, n);
        lemma_idx_bounds(x, y, n);
        lemma_idx_bounds(x - 1, y, n);
        lemma_idx_bounds(x + 1, y, n);
        lemma_idx_bounds(x, y - 1, n);
        lemma_idx_bounds(x, y + 1, n);
        lemma_tdiv_zero(den);
        assert(prev[idx(x, y, n)] * uf == 0) by (nonlinear_arith)
            requires prev[idx(x, y, n)] == 0;
        assert(ls_cell(cur0, prev, af, uf, den, n, x, y) == 0i64) by {
            assert(af * (cur0[idx(x - 1, y, n)] + cur0[idx(x + 1, y, n)] + cur0[idx(x, y - 1, n)]
                + cur0[idx(x, y + 1, n)]) == af * 0) by (nonlinear_arith)
                requires cur0[idx(x - 1, y, n)] + cur0[idx(x + 1, y, n)] + cur0[idx(x, y - 1, n)]
                    + cur0[idx(x, y + 1, n)] == 0;
        }
        assert(cur0.update(idx(x, y, n), 0i64) =~= cur0);
    }
}

/// The sweep-order rank of an interior cell decomposes back into its
/// coordinates, and they are in the interior.
pub proof fn lemma_sweep_coords(k: int, n: int)
    requires
        3 <= n,
        0 <= k < (n - 2) * (n - 2),
    ensures
        1 <= sweep_x(k, n) < n - 1,
        1 <= sweep_y(k, n) < n - 1,
{
    crate::nums::lemma_tdiv_below(k, n - 2, n - 2);
    vstd::arithmetic::div_mod::lemma_fundamental_div_mod(k, n - 2);
}

/// The rank of the cell at interior coordinates (x, y).
pub proof fn lemma_sweep_rank(x: int, y: int, n: int)
    requires
        3 <= n,
        1 <= x < n - 1,
        1 <= y < n - 1,
    ensures
        sweep_x((x - 1) * (n - 2) + (y - 1), n) == x,
        sweep_y((x - 1) * (n - 2) + (y - 1), n) == y,
        0 <= (x - 1) * (n - 2) + (y - 1) < (n - 2) * (n - 2),
{
    let k = (x - 1) * (n - 2) + (y - 1);
    vstd::arithmetic::div_mod::lemma_fundamental_div_mod_converse_div(k, n - 2, x - 1, y - 1);
    vstd::arithmetic::div_mod::lemma_fundamental_div_mod_converse_mod(k, n - 2, x - 1, y - 1);
    assert(0 <= k < (n - 2) * (n - 2)) by (nonlinear_arith)
        requires 1 <= x < n - 1 && 1 <= y < n - 1 && 3 <= n && k == (x - 1) * (n - 2) + (y - 1);
}

/// Iterated sweeps keep the field length and range.
pub proof fn lemma_ls_iters_in_range(
    cur0: Seq<i64>,
    prev: Seq<i64>,
    af: int,
    uf: int,
    den: int,
    b: BoundaryKind,
    n: int,
    it: int,
)
    requires
        3 <= n,
        cur0.len() == n * n,
        in_range(cur0),
        0 <= it,
    ensures
        ls_iters(cur0, prev, af, uf, den, b, n, it).len() == n * n,
        in_range(ls_iters(cur0, prev, af, uf, den, b, n, it)),
    decreases it,
{
    if it > 0 {
        lemma_ls_iters_in_range(cur0, prev, af, uf, den, b, n, it - 1);
        let stepped = ls_sweep(
            ls_iters(cur0, prev, af, uf, den, b, n, it - 1),
            prev,
            af,
            uf,
            den,
            n,
            (n - 2) * (n - 2),
        );
        assert(0 <= (n - 2) * (n - 2)) by (nonlinear_arith)
            requires 3 <= n;
        lemma_ls_sweep_in_range(
            ls_iters(cur0, prev, af, uf, den, b, n, it - 1),
            prev,
            af,
            uf,
            den,
            n,
            (n - 2) * (n - 2),
        );
        lemma_sb_in_range(b, stepped, n);
    }
}

/// On all-zero current and source fields the whole relaxation is the
/// identity.
pub proof fn lemma_ls_iters_zero(
    cur0: Seq<i64>,
    prev: Seq<i64>,
    af: int,
    uf: int,
    den: int,
    b: BoundaryKind,
    n: int,
    it: int,
)
    requires
        3 <= n,
        cur0.len() == n * n,
        prev.len() == n * n,
        all_zero(cur0),
        all_zero(prev),
        den >= 1,
        0 <= it,
    ensures
        ls_iters(cur0, prev, af, uf, den, b, n, it) == cur0,
    decreases it,
{
    if it > 0 {
        lemma_ls_iters_zero(cur0, prev, af, uf, den, b, n, it - 1);
        assert(0 <= (n - 2) * (n - 2)) by (nonlinear_arith)
            requires 3 <= n;
        lemma_ls_sweep_zero(cur0, prev, af, uf, den, n, (n - 2) * (n - 2));
        lemma_sb_zero(b, cur0, n);
    }
}

/// Sweep-order rank of the interior cell (x, y).
pub open spec fn sweep_rank(x: int, y: int, n: int) -> int {
    (x - 1) * (n - 2) + (y - 1)
}

/// With a zero neighbour factor and denominator equal to the self factor,
/// a partial sweep copies `prev` into every cell it has processed and
/// leaves the rest of the field alone.
pub proof fn lemma_ls_sweep_af0(
    cur0: Seq<i64>,
    prev: Seq<i64>,
    uf: int,
    n: int,
    k: int,
)
    requires
        3 <= n,
        cur0.len() == n * n,
        prev.len() == n * n,
        in_range(prev),
        uf >= 1,
        0 <= k <= (n - 2) * (n - 2),
    ensures
        ls_sweep(cur0, prev, 0, uf, uf, n, k).len() == n * n,
        forall|x: int, y: int|
            1 <= x < n - 1 && 1 <= y < n - 1 && sweep_rank(x, y, n) < k ==> ls_sweep(
                cur0,
                prev,
                0,
                uf,
                uf,
                n,
                k,
            )[#[trigger] idx(x, y, n)] == prev[idx(x, y, n)],
        forall|x: int, y: int|
            1 <= x < n - 1 && 1 <= y < n - 1 && sweep_rank(x, y, n) >= k ==> ls_sweep(
                cur0,
                prev,
                0,
                uf,
                uf,
                n,
                k,
            )[#[trigger] idx(x, y, n)] == cur0[idx(x, y, n)],
        forall|x: int, y: int|
            0 <= x < n && 0 <= y < n && !(1 <= x < n - 1 && 1 <= y < n - 1) ==> ls_sweep(
                cur0,
                prev,
                0,
                uf,
                uf,
                n,
                k,
            )[#[trigger] idx(x, y, n)] == cur0[idx(x, y, n)],
    decreases k,
{
    if k > 0 {
        lemma_ls_sweep_af0(cur0, prev, uf, n, k - 1);
        let cur = ls_sweep(cur0, prev, 0, uf, uf, n, k - 1);
        let s = ls_sweep(cur0, prev, 0, uf, uf, n, k);
        let cx = sweep_x(k - 1, n);
        let cy = sweep_y(k - 1, n);
        lemma_sweep_coords(k - 1, n);
        lemma_idx_bounds(cx, cy, n);
        lemma_sweep_rank(cx, cy, n);
        assert(sweep_rank(cx, cy, n) == k - 1) by (nonlinear_arith)
            requires
                3 <= n && 1 <= cx < n - 1 && 1 <= cy < n - 1 && cx == 1 + (k - 1) / (n - 2) && cy
                    == 1 + (k - 1) % (n - 2) && sweep_x(sweep_rank(cx, cy, n), n) == cx && sweep_y(
                    sweep_rank(cx, cy, n),
                    n,
                ) == cy && sweep_rank(cx, cy, n) == (cx - 1) * (n - 2) + (cy - 1),
        ;
        assert(ls_cell(cur, prev, 0, uf, uf, n, cx, cy) == prev[idx(cx, cy, n)]) by {
            lemma_idx_bounds(cx - 1, cy, n);
            lemma_idx_bounds(cx + 1, cy, n);
            lemma_idx_bounds(cx, cy - 1, n);
            lemma_idx_bounds(cx, cy + 1, n);
            let nsum = cur[idx(cx - 1, cy, n)] + cur[idx(cx + 1, cy, n)] + cur[idx(cx, cy - 1, n)]
                + cur[idx(cx, cy + 1, n)];
            assert(0 * nsum == 0) by (nonlinear_arith);
            crate::nums::lemma_tdiv_exact(prev[idx(cx, cy, n)] as int, uf);
            assert(-VMAX <= prev[idx(cx, cy, n)] <= VMAX);
        }
        assert forall|x: int, y: int|
            1 <= x < n - 1 && 1 <= y < n - 1 && sweep_rank(x, y, n) < k implies s[#[trigger] idx(
            x,
            y,
            n,
        )] == prev[idx(x, y, n)] by {
            lemma_idx_bounds(x, y, n);
            if x == cx && y == cy {
            } else {
                lemma_sweep_rank(x, y, n);
            }
        }
        assert forall|x: int, y: int|
            1 <= x < n - 1 && 1 <= y < n - 1 && sweep_rank(x, y, n) >= k implies s[#[trigger] idx(
            x,
            y,
            n,
        )] == cur0[idx(x, y, n)] by {
            lemma_idx_bounds(x, y, n);
            lemma_sweep_rank(x, y, n);
        }
        assert forall|x: int, y: int|
            0 <= x < n && 0 <= y < n && !(1 <= x < n - 1 && 1 <= y < n - 1) implies s[
        #[trigger] idx(x, y, n)] == cur0[idx(x, y, n)] by {
            lemma_idx_bounds(x, y, n);
        }
    }
}

/// With a zero neighbour factor the whole relaxation copies `prev` into
/// the interior, whatever the current buffer held: diffusion at rate zero
/// leaves the field (up to boundary fixup) exactly as it was.
pub proof fn lemma_ls_iters_af0(
    cur0: Seq<i64>,
    prev: Seq<i64>,
    uf: int,
    b: BoundaryKind,
    n: int,
    it: int,
)
    requires
        3 <= n,
        cur0.len() == n * n,
        prev.len() == n * n,
        in_range(cur0),
        in_range(prev),
        uf >= 1,
        1 <= it,
    ensures
        forall|x: int, y: int|
            1 <= x < n - 1 && 1 <= y < n - 1 ==> ls_iters(cur0, prev, 0, uf, uf, b, n, it)[
                #[trigger] idx(x, y, n)
            ] == prev[idx(x, y, n)],
{
    let base = ls_iters(cur0, prev, 0, uf, uf, b, n, it - 1);
    lemma_ls_iters_in_range(cur0, prev, 0, uf, uf, b, n, it - 1);
    assert(0 <= (n - 2) * (n - 2)) by (nonlinear_arith)
        requires 3 <= n;
    lemma_ls_sweep_af0(base, prev, uf, n, (n - 2) * (n - 2));
    let swept = ls_sweep(base, prev, 0, uf, uf, n, (n - 2) * (n - 2));
    crate::bnd::lemma_sb_interior(b, swept, n);
    assert forall|x: int, y: int| 1 <= x < n - 1 && 1 <= y < n - 1 implies ls_iters(
        cur0,
        prev,
        0,
        uf,
        uf,
        b,
        n,
        it,
    )[#[trigger] idx(x, y, n)] == prev[idx(x, y, n)] by {
        lemma_sweep_rank(x, y, n);
    }
}

/// Diffusion's neighbour factor: `speed * rate * (n-2)^2`, with the two
/// fixed-point scales of the product divided back out once.
pub open spec fn diffusion_af(speed: int, rate: int, n: int) -> int {
    tdiv(speed * rate * ((n - 2) * (n - 2)), SCALE as int)
}

/// Spread field `prev` into `cur` by 20 relaxation sweeps at diffusion
/// rate `rate` and time-step scale `speed`, enforcing the boundary after
/// every sweep.
pub fn diffuse(size: usize, b: BoundaryKind, cur: &mut Vec<i64>, prev: &Vec<i64>, rate: i64, speed: i64)
    requires
        3 <= size <= NMAX,
        old(cur).len() == size * size,
        prev.len() == size * size,
        in_range(old(cur)@),
        in_range(prev@),
        0 <= rate <= crate::nums::PARAM_MAX,
        0 <= speed <= crate::nums::PARAM_MAX,
    ensures
        final(cur)@ == ls_iters(
            old(cur)@,
            prev@,
            diffusion_af(speed as int, rate as int, size as int),
            SCALE as int,
            SCALE as int + 4 * diffusion_af(speed as int, rate as int, size as int),
            b,
            size as int,
            ITERS as int,
        ),
        final(cur).len() == size * size,
        in_range(final(cur)@),
{
    let interior = size - 2;
    proof {
        assert(interior * interior <= NMAX * NMAX) by (nonlinear_arith)
            requires interior <= NMAX;
        assert((speed as i128) * (rate as i128) <= (crate::nums::PARAM_MAX as i128) * (
        crate::nums::PARAM_MAX as i128) && 0 <= (speed as i128) * (rate as i128))
            by (nonlinear_arith)
            requires 0 <= speed <= crate::nums::PARAM_MAX && 0 <= rate <= crate::nums::PARAM_MAX;
    }
    let sr: i128 = (speed as i128) * (rate as i128);
    proof {
        assert(sr * ((interior * interior) as i128) <= (10_000_000_000_000_000i128) * (
        (NMAX * NMAX) as i128) && 0 <= sr * ((interior * interior) as i128)) by (nonlinear_arith)
            requires 0 <= sr <= 10_000_000_000_000_000i128 && 0 <= ((interior * interior) as i128)
                <= ((NMAX * NMAX) as i128);
    }
    let m: i128 = sr * ((interior * interior) as i128);
    proof {
        crate::nums::lemma_tdiv_bound(m as int, SCALE as int, AF_CAP as int);
    }
    let af = tdiv_exec(m, SCALE as i128);
    let den: i128 = (SCALE as i128) + 4 * af;
    lin_solve(size, b, cur, prev, af, SCALE as i128, den);
}

/// Run [`ITERS`] Gauss-Seidel sweeps over the interior of `cur`, each
/// followed by boundary enforcement of kind `b`, with source field `prev`,
/// neighbour factor `af`, self factor `uf` and denominator `den`.
pub fn lin_solve(
    size: usize,
    b: BoundaryKind,
    cur: &mut Vec<i64>,
    prev: &Vec<i64>,
    af: i128,
    uf: i128,
    den: i128,
)
    requires
        3 <= size <= NMAX,
        old(cur).len() == size * size,
        prev.len() == size * size,
        in_range(old(cur)@),
        in_range(prev@),
        0 <= af <= AF_CAP,
        1 <= uf <= UF_CAP,
        1 <= den <= DEN_CAP,
    ensures
        final(cur)@ == ls_iters(
            old(cur)@,
            prev@,
            af as int,
            uf as int,
            den as int,
            b,
            size as int,
            ITERS as int,
        ),
        final(cur).len() == size * size,
        in_range(final(cur)@),
{
    let ghost init = cur@;
    let ghost ni = size as int;
    let n = size;
    for it in 0..ITERS
        invariant
            3 <= n <= NMAX,
            ni == n as int,
            init.len() == ni * ni,
            in_range(init),
            prev.len() == n * n,
            in_range(prev@),
            0 <= af <= AF_CAP,
            1 <= uf <= UF_CAP,
            1 <= den <= DEN_CAP,
            cur.len() == n * n,
            in_range(cur@),
            cur@ == ls_iters(init, prev@, af as int, uf as int, den as int, b, ni, it as int),
    {
        let ghost sweep0 = cur@;
        for x in 1..(n - 1)
            invariant
                3 <= n <= NMAX,
                ni == n as int,
                sweep0.len() == ni * ni,
                in_range(sweep0),
                prev.len() == n * n,
                in_range(prev@),
                0 <= af <= AF_CAP,
                1 <= uf <= UF_CAP,
                1 <= den <= DEN_CAP,
                cur.len() == n * n,
                in_range(cur@),
                1 <= x <= n - 1,
                cur@ == ls_sweep(
                    sweep0,
                    prev@,
                    af as int,
                    uf as int,
                    den as int,
                    ni,
                    (x as int - 1) * (ni - 2),
                ),
        {
            proof {
                assert(0 <= (x as int - 1) * (ni - 2) <= (ni - 2) * (ni - 2)) by (nonlinear_arith)
                    requires 1 <= x as int <= ni - 1 && 3 <= ni;
            }
            for y in 1..(n - 1)
                invariant
                    3 <= n <= NMAX,
                    ni == n as int,
                    sweep0.len() == ni * ni,
                    in_range(sweep0),
                    prev.len() == n * n,
                    in_range(prev@),
                    0 <= af <= AF_CAP,
                    1 <= uf <= UF_CAP,
                    1 <= den <= DEN_CAP,
                    cur.len() == n * n,
                    in_range(cur@),
                    1 <= x < n - 1,
                    1 <= y <= n - 1,
                    cur@ == ls_sweep(
                        sweep0,
                        prev@,
                        af as int,
                        uf as int,
                        den as int,
                        ni,
                        (x as int - 1) * (ni - 2) + (y as int - 1),
                    ),
            {
                let ghost k = (x as int - 1) * (ni - 2) + (y as int - 1);
                proof {
                    lemma_sweep_rank(x as int, y as int, ni);
                    lemma_idx_bounds(x as int, y as int, ni);
                    lemma_idx_bounds(x as int - 1, y as int, ni);
                    lemma_idx_bounds(x as int + 1, y as int, ni);
                    lemma_idx_bounds(x as int, y as int - 1, ni);
                    lemma_idx_bounds(x as int, y as int + 1, ni);
                }
                let c = ix(x as u32, y as u32, n as u32);
                let cl = ix((x - 1) as u32, y as u32, n as u32);
                let cr = ix((x + 1) as u32, y as u32, n as u32);
                let cd = ix(x as u32, (y - 1) as u32, n as u32);
                let cu = ix(x as u32, (y + 1) as u32, n as u32);
                let pv = prev[c];
                let nsum: i128 = cur[cl] as i128 + cur[cr] as i128 + cur[cd] as i128
                    + cur[cu] as i128;
                proof {
                    assert(-(4 * VMAX as i128) <= nsum <= 4 * VMAX as i128);
                    assert((pv as i128) * uf <= (VMAX as i128) * UF_CAP && (pv as i128) * uf >= -(
                    (VMAX as i128) * UF_CAP)) by (nonlinear_arith)
                        requires -VMAX <= pv <= VMAX && 1 <= uf <= UF_CAP;
                    assert(af * nsum <= AF_CAP * (4 * VMAX as i128) && af * nsum >= -(AF_CAP * (4
                        * VMAX as i128))) by (nonlinear_arith)
                        requires 0 <= af <= AF_CAP && -(4 * VMAX as i128) <= nsum <= 4 * VMAX
                            as i128;
                }
                let num: i128 = (pv as i128) * uf + af * nsum;
                let q = tdiv_exec(num, den);
                let v = sat_exec(q);
                cur.set(c, v);
                proof {
                    let curp = ls_sweep(sweep0, prev@, af as int, uf as int, den as int, ni, k);
                    assert(v == ls_cell(curp, prev@, af as int, uf as int, den as int, ni, x as int, y as int));
                    assert(cur@ == ls_sweep(
                        sweep0,
                        prev@,
                        af as int,
                        uf as int,
                        den as int,
                        ni,
                        k + 1,
                    ));
                    assert(k + 1 == (x as int - 1) * (ni - 2) + (y as int + 1 - 1));
                }
            }
            proof {
                assert((x as int - 1) * (ni - 2) + (ni - 2) == (x as int + 1 - 1) * (ni - 2))
                    by (nonlinear_arith);
            }
        }
        proof {
            assert((ni - 2) * (ni - 2) == (n as int - 1 - 1) * (ni - 2)) by (nonlinear_arith)
                requires ni == n as int;
        }
        set_bnd(n, b, cur);
        proof {
            assert(cur@ == ls_iters(
                init,
                prev@,
                af as int,
                uf as int,
                den as int,
                b,
                ni,
                it as int + 1,
            ));
        }
    }
}

} // verus!
