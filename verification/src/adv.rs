//! Semi-Lagrangian advection.
//!
//! For each interior cell the solver traces the backward position the
//! parcel now there came from (`x = i - dt0 * vel_x`, `y = j - dt0 *
//! vel_y`, in fixed point), clamps it to the interpolatable band
//! `[0.5, n - 1.5]` (in cells), and bilinearly interpolates the previous
//! field at that position. The boundary is enforced once afterwards.

use vstd::prelude::*;

use crate::bnd::{BoundaryKind, sb, set_bnd};
use crate::nums::{
    NMAX, SCALE, SCALE_SQ, VMAX, all_zero, idx, in_range, ix, lemma_cell_coords, lemma_idx_bounds,
    lemma_tdiv_below, lemma_tdiv_bound, lemma_tdiv_rem, lemma_tdiv_zero, sat_val, sat_exec, tdiv,
    tdiv_exec,
};

verus! {

/// Half a cell in fixed point: the lower clamp bound of the backtrace.
pub const HALF_SCALE: i64 = 500_000;

/// Largest time-step factor `dt0` a caller forms
/// (`PARAM_MAX * (NMAX - 2)` stays below it).
pub const DT_CAP: i128 = 1_000_000_000_000;

/// Clamp of the backtraced coordinate into `[lo, hi]`.
pub open spec fn clamp(v: int, lo: int, hi: int) -> int {
    if v < lo {
        lo
    } else if v > hi {
        hi
    } else {
        v
    }
}

/// The advected value of interior cell (i, j): bilinear interpolation of
/// `d0` at the clamped backtraced position, all in fixed point.
pub open spec fn adv_cell(
    d0: Seq<i64>,
    vx: Seq<i64>,
    vy: Seq<i64>,
    dt0: int,
    n: int,
    i: int,
    j: int,
) -> i64 {
    let xs = i * SCALE - tdiv(dt0 * vx[idx(i, j, n)], SCALE as int);
    let ys = j * SCALE - tdiv(dt0 * vy[idx(i, j, n)], SCALE as int);
    let xc = clamp(xs, HALF_SCALE as int, (n - 2) * SCALE + HALF_SCALE);
    let yc = clamp(ys, HALF_SCALE as int, (n - 2) * SCALE + HALF_SCALE);
    let i0 = tdiv(xc, SCALE as int);
    let j0 = tdiv(yc, SCALE as int);
    let s1 = xc - i0 * SCALE;
    let s0 = SCALE - s1;
    let t1 = yc - j0 * SCALE;
    let t0 = SCALE - t1;
    sat_val(
        tdiv(
            s0 * (t0 * d0[idx(i0, j0, n)] + t1 * d0[idx(i0, j0 + 1, n)]) + s1 * (t0 * d0[idx(
                i0 + 1,
                j0,
                n,
            )] + t1 * d0[idx(i0 + 1, j0 + 1, n)]),
            SCALE_SQ as int,
        ),
    )
}

/// The field after the interior has been advected: interior cells take
/// their backtraced value, the boundary ring keeps what `cur0` held (it is
/// re-derived by the boundary pass right after).
pub open spec fn adv_interior(
    cur0: Seq<i64>,
    d0: Seq<i64>,
    vx: Seq<i64>,
    vy: Seq<i64>,
    dt0: int,
    n: int,
) -> Seq<i64> {
    Seq::new(
        (n * n) as nat,
        |c: int|
            if 1 <= c % n < n - 1 && 1 <= c / n < n - 1 {
                adv_cell(d0, vx, vy, dt0, n, c % n, c / n)
            } else {
                cur0[c]
            },
    )
}

/// A weighted pair with weights summing to `s` stays within `s` times the
/// bound of its parts.
proof fn lemma_convex_bound(t0: int, t1: int, a: int, b: int, s: int, v: int)
    requires
        0 <= t0,
        0 <= t1,
        t0 + t1 == s,
        -v <= a <= v,
        -v <= b <= v,
        0 <= v,
    ensures
        -(s * v) <= t0 * a <= s * v,
        -(s * v) <= t1 * b <= s * v,
        -(s * v) <= t0 * a + t1 * b <= s * v,
{
    assert(-(s * v) <= t0 * a <= s * v && -(s * v) <= t1 * b <= s * v && -(s * v) <= t0 * a + t1
        * b <= s * v) by (nonlinear_arith)
        requires 0 <= t0 && 0 <= t1 && t0 + t1 == s && -v <= a <= v && -v <= b <= v && 0 <= v;
}

/// Facts about the clamped backtrace coordinate: which cells it
/// interpolates between and the interpolation weights' range.
proof fn lemma_backtrace(xc: int, n: int)
    requires
        3 <= n,
        HALF_SCALE <= xc <= (n - 2) * SCALE + HALF_SCALE,
    ensures
        0 <= tdiv(xc, SCALE as int) <= n - 2,
        0 <= xc - tdiv(xc, SCALE as int) * SCALE < SCALE,
{
    assert((n - 2) * SCALE + HALF_SCALE < (n - 1) * SCALE) by (nonlinear_arith)
        requires 3 <= n;
    lemma_tdiv_below(xc, SCALE as int, n - 1);
    lemma_tdiv_rem(xc, SCALE as int);
}

/// Advect every interior cell of `cur` by tracing backwards through the
/// velocity field `(velx, vely)` with time-step factor `dt0` and
/// interpolating `prev`, then enforce the boundary of kind `b`.
#[verifier::rlimit(60)]
pub fn advect(
    size: usize,
    b: BoundaryKind,
    cur: &mut Vec<i64>,
    prev: &Vec<i64>,
    velx: &Vec<i64>,
    vely: &Vec<i64>,
    dt0: i128,
)
    requires
        3 <= size <= NMAX,
        old(cur).len() == size * size,
        prev.len() == size * size,
        velx.len() == size * size,
        vely.len() == size * size,
        in_range(old(cur)@),
        in_range(prev@),
        in_range(velx@),
        in_range(vely@),
        0 <= dt0 <= DT_CAP,
    ensures
        final(cur)@ == sb(
            b,
            adv_interior(old(cur)@, prev@, velx@, vely@, dt0 as int, size as int),
            size as int,
        ),
        final(cur).len() == size * size,
        in_range(final(cur)@),
{
    let n = size;
    let ghost ni = n as int;
    let ghost init = cur@;
    for i in 1..(n - 1)
        invariant
            3 <= n <= NMAX,
            ni == n as int,
            init.len() == ni * ni,
            in_range(init),
            prev.len() == n * n,
            velx.len() == n * n,
            vely.len() == n * n,
            in_range(prev@),
            in_range(velx@),
            in_range(vely@),
            0 <= dt0 <= DT_CAP,
            cur.len() == n * n,
            in_range(cur@),
            forall|xx: int, yy: int|
                0 <= xx < ni && 0 <= yy < ni ==> #[trigger] cur@[idx(xx, yy, ni)] == (if 1 <= xx
                    < i && 1 <= yy < ni - 1 {
                    adv_cell(prev@, velx@, vely@, dt0 as int, ni, xx, yy)
                } else {
                    init[idx(xx, yy, ni)]
                }),
    {
        for j in 1..(n - 1)
            invariant
                3 <= n <= NMAX,
                ni == n as int,
                init.len() == ni * ni,
                in_range(init),
                prev.len() == n * n,
                velx.len() == n * n,
                vely.len() == n * n,
                in_range(prev@),
                in_range(velx@),
                in_range(vely@),
                0 <= dt0 <= DT_CAP,
                cur.len() == n * n,
                in_range(cur@),
                1 <= i < n - 1,
                forall|xx: int, yy: int|
                    0 <= xx < ni && 0 <= yy < ni ==> #[trigger] cur@[idx(xx, yy, ni)] == (if (1
                        <= xx < i && 1 <= yy < ni - 1) || (xx == i && 1 <= yy < j) {
                        adv_cell(prev@, velx@, vely@, dt0 as int, ni, xx, yy)
                    } else {
                        init[idx(xx, yy, ni)]
                    }),
        {
            proof {
                lemma_idx_bounds(i as int, j as int, ni);
            }
            let c = ix(i as u32, j as u32, n as u32);
            let vxv = velx[c];
            let vyv = vely[c];
            let lo: i128 = HALF_SCALE as i128;
            let hi: i128 = ((n - 2) as i128) * (SCALE as i128) + (HALF_SCALE as i128);
            proof {
                assert(dt0 * (vxv as i128) <= DT_CAP * (VMAX as i128) && dt0 * (vxv as i128) >= -(
                DT_CAP * (VMAX as i128))) by (nonlinear_arith)
                    requires 0 <= dt0 <= DT_CAP && -VMAX <= vxv <= VMAX;
                assert(dt0 * (vyv as i128) <= DT_CAP * (VMAX as i128) && dt0 * (vyv as i128) >= -(
                DT_CAP * (VMAX as i128))) by (nonlinear_arith)
                    requires 0 <= dt0 <= DT_CAP && -VMAX <= vyv <= VMAX;
                assert((i as i128) * (SCALE as i128) <= (NMAX as i128) * (SCALE as i128) && 0 <= (
                i as i128) * (SCALE as i128)) by (nonlinear_arith)
                    requires 0 <= i as i128 <= NMAX as i128;
                assert((j as i128) * (SCALE as i128) <= (NMAX as i128) * (SCALE as i128) && 0 <= (
                j as i128) * (SCALE as i128)) by (nonlinear_arith)
                    requires 0 <= j as i128 <= NMAX as i128;
                assert(((n - 2) as i128) * (SCALE as i128) <= (NMAX as i128) * (SCALE as i128) && 0
                    <= ((n - 2) as i128) * (SCALE as i128)) by (nonlinear_arith)
                    requires 0 <= (n - 2) as i128 <= NMAX as i128;
            }
            let xs: i128 = (i as i128) * (SCALE as i128) - tdiv_exec(
                dt0 * (vxv as i128),
                SCALE as i128,
            );
            let ys: i128 = (j as i128) * (SCALE as i128) - tdiv_exec(
                dt0 * (vyv as i128),
                SCALE as i128,
            );
            let xc: i128 = if xs < lo {
                lo
            } else if xs > hi {
                hi
            } else {
                xs
            };
            let yc: i128 = if ys < lo {
                lo
            } else if ys > hi {
                hi
            } else {
                ys
            };
            proof {
                lemma_backtrace(xc as int, ni);
                lemma_backtrace(yc as int, ni);
            }
            let i0 = tdiv_exec(xc, SCALE as i128);
            let j0 = tdiv_exec(yc, SCALE as i128);
            proof {
                assert(i0 * (SCALE as i128) <= xc && i0 >= 0);
                assert(j0 * (SCALE as i128) <= yc && j0 >= 0);
            }
            let s1: i128 = xc - i0 * (SCALE as i128);
            let s0: i128 = (SCALE as i128) - s1;
            let t1: i128 = yc - j0 * (SCALE as i128);
            let t0: i128 = (SCALE as i128) - t1;
            proof {
                lemma_idx_bounds(i0 as int, j0 as int, ni);
                lemma_idx_bounds(i0 as int + 1, j0 as int, ni);
                lemma_idx_bounds(i0 as int, j0 as int + 1, ni);
                lemma_idx_bounds(i0 as int + 1, j0 as int + 1, ni);
            }
            let d00 = prev[ix(i0 as u32, j0 as u32, n as u32)];
            let d01 = prev[ix(i0 as u32, (j0 + 1) as u32, n as u32)];
            let d10 = prev[ix((i0 + 1) as u32, j0 as u32, n as u32)];
            let d11 = prev[ix((i0 + 1) as u32, (j0 + 1) as u32, n as u32)];
            proof {
                lemma_convex_bound(
                    t0 as int,
                    t1 as int,
                    d00 as int,
                    d01 as int,
                    SCALE as int,
                    VMAX as int,
                );
                lemma_convex_bound(
                    t0 as int,
                    t1 as int,
                    d10 as int,
                    d11 as int,
                    SCALE as int,
                    VMAX as int,
                );
                lemma_convex_bound(
                    s0 as int,
                    s1 as int,
                    (t0 * (d00 as i128) + t1 * (d01 as i128)) as int,
                    (t0 * (d10 as i128) + t1 * (d11 as i128)) as int,
                    SCALE as int,
                    (SCALE as int) * (VMAX as int),
                );
                assert((SCALE as int) * ((SCALE as int) * (VMAX as int)) == (SCALE_SQ as int) * (
                VMAX as int)) by (nonlinear_arith);
            }
            let num: i128 = s0 * (t0 * (d00 as i128) + t1 * (d01 as i128)) + s1 * (t0 * (d10
                as i128) + t1 * (d11 as i128));
            proof {
                lemma_tdiv_bound(num as int, SCALE_SQ as int, VMAX as int);
            }
            let q = tdiv_exec(num, SCALE_SQ as i128);
            let v = sat_exec(q);
            cur.set(c, v);
            proof {
                assert(v == adv_cell(prev@, velx@, vely@, dt0 as int, ni, i as int, j as int));
                assert forall|xx: int, yy: int|
                    0 <= xx < ni && 0 <= yy < ni implies #[trigger] cur@[idx(xx, yy, ni)] == (if (1
                    <= xx < i && 1 <= yy < ni - 1) || (xx == i && 1 <= yy < j + 1) {
                    adv_cell(prev@, velx@, vely@, dt0 as int, ni, xx, yy)
                } else {
                    init[idx(xx, yy, ni)]
                }) by {
                    lemma_idx_bounds(xx, yy, ni);
                }
            }
        }
    }
    proof {
        let merged = adv_interior(init, prev@, velx@, vely@, dt0 as int, ni);
        assert forall|c: int| 0 <= c < ni * ni implies cur@[c] == merged[c] by {
            lemma_cell_coords(c, ni);
            lemma_idx_bounds(c % ni, c / ni, ni);
        }
        assert(cur@ =~= merged);
    }
    set_bnd(n, b, cur);
}

/// Interior advection keeps every value in the stored range and the field
/// length.
pub proof fn lemma_adv_interior_in_range(
    cur0: Seq<i64>,
    d0: Seq<i64>,
    vx: Seq<i64>,
    vy: Seq<i64>,
    dt0: int,
    n: int,
)
    requires
        3 <= n,
        cur0.len() == n * n,
        in_range(cur0),
    ensures
        adv_interior(cur0, d0, vx, vy, dt0, n).len() == n * n,
        in_range(adv_interior(cur0, d0, vx, vy, dt0, n)),
{
    let s = adv_interior(cur0, d0, vx, vy, dt0, n);
    assert forall|c: int| 0 <= c < s.len() implies -VMAX <= #[trigger] s[c] <= VMAX by {
        lemma_cell_coords(c, n);
    }
}

/// Advecting an all-zero source field yields zero at every interior cell,
/// whatever the velocities: interpolating zeros gives zero.
pub proof fn lemma_adv_interior_zero(
    cur0: Seq<i64>,
    d0: Seq<i64>,
    vx: Seq<i64>,
    vy: Seq<i64>,
    dt0: int,
    n: int,
)
    requires
        3 <= n,
        cur0.len() == n * n,
        d0.len() == n * n,
        all_zero(cur0),
        all_zero(d0),
    ensures
        adv_interior(cur0, d0, vx, vy, dt0, n) == cur0,
{
    let s = adv_interior(cur0, d0, vx, vy, dt0, n);
    assert forall|c: int| 0 <= c < s.len() implies s[c] == cur0[c] by {
        lemma_cell_coords(c, n);
        let i = c % n;
        let j = c / n;
        if 1 <= i < n - 1 && 1 <= j < n - 1 {
            lemma_adv_cell_zero_field(d0, vx, vy, dt0, n, i, j);
            assert(cur0[c] == 0);
        }
    }
    assert(s =~= cur0);
}

/// One advected cell of an all-zero source field is zero.
proof fn lemma_adv_cell_zero_field(
    d0: Seq<i64>,
    vx: Seq<i64>,
    vy: Seq<i64>,
    dt0: int,
    n: int,
    i: int,
    j: int,
)
    requires
        3 <= n,
        d0.len() == n * n,
        all_zero(d0),
        1 <= i < n - 1,
        1 <= j < n - 1,
    ensures
        adv_cell(d0, vx, vy, dt0, n, i, j) == 0i64,
{
    let xs = i * SCALE - tdiv(dt0 * vx[idx(i, j, n)], SCALE as int);
    let ys = j * SCALE - tdiv(dt0 * vy[idx(i, j, n)], SCALE as int);
    let xc = clamp(xs, HALF_SCALE as int, (n - 2) * SCALE + HALF_SCALE);
    let yc = clamp(ys, HALF_SCALE as int, (n - 2) * SCALE + HALF_SCALE);
    assert((n - 2) * SCALE + HALF_SCALE >= HALF_SCALE as int) by (nonlinear_arith)
        requires 3 <= n;
    lemma_backtrace(xc, n);
    lemma_backtrace(yc, n);
    let i0 = tdiv(xc, SCALE as int);
    let j0 = tdiv(yc, SCALE as int);
    lemma_idx_bounds(i0, j0, n);
    lemma_idx_bounds(i0 + 1, j0, n);
    lemma_idx_bounds(i0, j0 + 1, n);
    lemma_idx_bounds(i0 + 1, j0 + 1, n);
    let s1 = xc - i0 * SCALE;
    let s0 = SCALE - s1;
    let t1 = yc - j0 * SCALE;
    let t0 = SCALE - t1;
    assert(t0 * d0[idx(i0, j0, n)] + t1 * d0[idx(i0, j0 + 1, n)] == 0) by (nonlinear_arith)
        requires d0[idx(i0, j0, n)] == 0 && d0[idx(i0, j0 + 1, n)] == 0;
    assert(t0 * d0[idx(i0 + 1, j0, n)] + t1 * d0[idx(i0 + 1, j0 + 1, n)] == 0) by (nonlinear_arith)
        requires d0[idx(i0 + 1, j0, n)] == 0 && d0[idx(i0 + 1, j0 + 1, n)] == 0;
    assert(s0 * 0 + s1 * 0 == 0) by (nonlinear_arith);
    lemma_tdiv_zero(SCALE_SQ as int);
}

/// On a zero velocity field the backtrace lands exactly on the cell, and
/// interpolation returns the cell's own previous value: advection is the
/// identity on the interior.
pub proof fn lemma_adv_cell_zero_velocity(
    d0: Seq<i64>,
    vx: Seq<i64>,
    vy: Seq<i64>,
    dt0: int,
    n: int,
    i: int,
    j: int,
)
    requires
        3 <= n,
        d0.len() == n * n,
        in_range(d0),
        1 <= i < n - 1,
        1 <= j < n - 1,
        vx[idx(i, j, n)] == 0,
        vy[idx(i, j, n)] == 0,
        0 <= dt0,
    ensures
        adv_cell(d0, vx, vy, dt0, n, i, j) == d0[idx(i, j, n)],
{
    assert(dt0 * vx[idx(i, j, n)] == 0) by (nonlinear_arith)
        requires vx[idx(i, j, n)] == 0;
    assert(dt0 * vy[idx(i, j, n)] == 0) by (nonlinear_arith)
        requires vy[idx(i, j, n)] == 0;
    lemma_tdiv_zero(SCALE as int);
    let xs = i * SCALE;
    let ys = j * SCALE;
    assert(HALF_SCALE <= xs && xs <= (n - 2) * SCALE && HALF_SCALE <= ys && ys <= (n - 2) * SCALE)
        by (nonlinear_arith)
        requires 1 <= i <= n - 2 && 1 <= j <= n - 2 && xs == i * SCALE && ys == j * SCALE;
    assert((n - 2) * SCALE <= (n - 2) * SCALE + HALF_SCALE);
    crate::nums::lemma_tdiv_exact(i, SCALE as int);
    crate::nums::lemma_tdiv_exact(j, SCALE as int);
    let s1 = xs - i * SCALE;
    let t1 = ys - j * SCALE;
    lemma_idx_bounds(i, j, n);
    lemma_idx_bounds(i + 1, j, n);
    lemma_idx_bounds(i, j + 1, n);
    lemma_idx_bounds(i + 1, j + 1, n);
    let v = d0[idx(i, j, n)];
    assert(SCALE * ((SCALE as int) * v + 0 * d0[idx(i, j + 1, n)]) + 0 * ((SCALE as int) * d0[idx(
        i + 1,
        j,
        n,
    )] + 0 * d0[idx(i + 1, j + 1, n)]) == (SCALE_SQ as int) * v) by (nonlinear_arith);
    crate::nums::lemma_tdiv_exact(v as int, SCALE_SQ as int);
}

} // verus!
