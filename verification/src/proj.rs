//! Pressure projection: enforcing incompressibility.
//!
//! The divergence of the velocity field is measured at every interior cell
//! by central differences, a discrete Poisson equation is relaxed for the
//! pressure over [`ITERS`](crate::nums::ITERS) sweeps, and the pressure
//! gradient is subtracted from the velocity, leaving the field close to
//! divergence-free. The two scratch buffers the caller hands in end up
//! holding the pressure and the divergence.

use vstd::prelude::*;

use crate::bnd::{BoundaryKind, sb, set_bnd, lemma_sb_zero};
use crate::lin::{lin_solve, ls_iters, lemma_ls_iters_zero};
use crate::nums::{
    ITERS, NMAX, VMAX, all_zero, idx, in_range, ix, lemma_cell_coords, lemma_idx_bounds,
    lemma_tdiv_zero, sat_val, sat_exec, tdiv, tdiv_exec,
};

verus! {

/// Discrete divergence at interior cell (i, j), scaled by `-h/2` with
/// `h = 1/(n-2)`, saturated into the stored range.
pub open spec fn div_cell(vx: Seq<i64>, vy: Seq<i64>, n: int, i: int, j: int) -> i64 {
    sat_val(
        tdiv(
            -(vx[idx(i + 1, j, n)] - vx[idx(i - 1, j, n)] + vy[idx(i, j + 1, n)] - vy[idx(
                i,
                j - 1,
                n,
            )]),
            2 * (n - 2),
        ),
    )
}

/// The divergence buffer before boundary fixup: interior cells measured
/// from the velocity field, the ring keeping what the scratch buffer held.
pub open spec fn div_field(vx: Seq<i64>, vy: Seq<i64>, d0: Seq<i64>, n: int) -> Seq<i64> {
    Seq::new(
        (n * n) as nat,
        |c: int|
            if 1 <= c % n < n - 1 && 1 <= c / n < n - 1 {
                div_cell(vx, vy, n, c % n, c / n)
            } else {
                d0[c]
            },
    )
}

/// The pressure buffer's start state: interior zeroed, ring kept.
pub open spec fn zeroed_interior(p0: Seq<i64>, n: int) -> Seq<i64> {
    Seq::new(
        (n * n) as nat,
        |c: int|
            if 1 <= c % n < n - 1 && 1 <= c / n < n - 1 {
                0i64
            } else {
                p0[c]
            },
    )
}

/// The x velocity after the pressure gradient has been subtracted from the
/// interior.
pub open spec fn grad_sub_x(vx0: Seq<i64>, p: Seq<i64>, n: int) -> Seq<i64> {
    Seq::new(
        (n * n) as nat,
        |c: int|
            if 1 <= c % n < n - 1 && 1 <= c / n < n - 1 {
                sat_val(
                    vx0[c] - tdiv((p[idx(c % n + 1, c / n, n)] - p[idx(c % n - 1, c / n, n)]) * (n
                        - 2), 2),
                )
            } else {
                vx0[c]
            },
    )
}

/// The y velocity after the pressure gradient has been subtracted from the
/// interior.
pub open spec fn grad_sub_y(vy0: Seq<i64>, p: Seq<i64>, n: int) -> Seq<i64> {
    Seq::new(
        (n * n) as nat,
        |c: int|
            if 1 <= c % n < n - 1 && 1 <= c / n < n - 1 {
                sat_val(
                    vy0[c] - tdiv((p[idx(c % n, c / n + 1, n)] - p[idx(c % n, c / n - 1, n)]) * (n
                        - 2), 2),
                )
            } else {
                vy0[c]
            },
    )
}

/// The fixed-up divergence field projection computes from velocities
/// `(vx, vy)` over a scratch buffer that held `d0`.
pub open spec fn project_div(vx: Seq<i64>, vy: Seq<i64>, d0: Seq<i64>, n: int) -> Seq<i64> {
    sb(BoundaryKind::Neutral, div_field(vx, vy, d0, n), n)
}

/// The pressure field projection relaxes: 20 Poisson sweeps from a zeroed
/// buffer that held `p0`, with the divergence as source.
pub open spec fn project_pressure(
    p0: Seq<i64>,
    vx: Seq<i64>,
    vy: Seq<i64>,
    d0: Seq<i64>,
    n: int,
) -> Seq<i64> {
    ls_iters(
        sb(BoundaryKind::Neutral, zeroed_interior(p0, n), n),
        project_div(vx, vy, d0, n),
        1,
        1,
        4,
        BoundaryKind::Neutral,
        n,
        ITERS as int,
    )
}

/// Remove the divergent part of the velocity field `(velx, vely)`. `p` and
/// `div` are scratch buffers; they come back holding the pressure solve's
/// result and the measured divergence.
#[verifier::rlimit(60)]
pub fn project(
    size: usize,
    velx: &mut Vec<i64>,
    vely: &mut Vec<i64>,
    p: &mut Vec<i64>,
    div: &mut Vec<i64>,
)
    requires
        3 <= size <= NMAX,
        old(velx).len() == size * size,
        old(vely).len() == size * size,
        old(p).len() == size * size,
        old(div).len() == size * size,
        in_range(old(velx)@),
        in_range(old(vely)@),
        in_range(old(p)@),
        in_range(old(div)@),
    ensures
        final(div)@ == project_div(old(velx)@, old(vely)@, old(div)@, size as int),
        final(p)@ == project_pressure(
            old(p)@,
            old(velx)@,
            old(vely)@,
            old(div)@,
            size as int,
        ),
        final(velx)@ == sb(
            BoundaryKind::ReflectX,
            grad_sub_x(
                old(velx)@,
                project_pressure(old(p)@, old(velx)@, old(vely)@, old(div)@, size as int),
                size as int,
            ),
            size as int,
        ),
        final(vely)@ == sb(
            BoundaryKind::ReflectY,
            grad_sub_y(
                old(vely)@,
                project_pressure(old(p)@, old(velx)@, old(vely)@, old(div)@, size as int),
                size as int,
            ),
            size as int,
        ),
        final(velx).len() == size * size,
        final(vely).len() == size * size,
        final(p).len() == size * size,
        final(div).len() == size * size,
        in_range(final(velx)@),
        in_range(final(vely)@),
        in_range(final(p)@),
        in_range(final(div)@),
{
    let n = size;
    let ghost ni = n as int;
    let ghost vx0 = velx@;
    let ghost vy0 = vely@;
    let ghost p0 = p@;
    let ghost d0 = div@;
    let den: i128 = 2 * ((n - 2) as i128);
    for i in 1..(n - 1)
        invariant
            3 <= n <= NMAX,
            ni == n as int,
            den == 2 * (ni - 2),
            velx.len() == n * n,
            vely.len() == n * n,
            velx@ == vx0,
            vely@ == vy0,
            in_range(vx0),
            in_range(vy0),
            p0.len() == ni * ni,
            d0.len() == ni * ni,
            in_range(p0),
            in_range(d0),
            p.len() == n * n,
            div.len() == n * n,
            in_range(p@),
            in_range(div@),
            forall|xx: int, yy: int|
                0 <= xx < ni && 0 <= yy < ni ==> #[trigger] div@[idx(xx, yy, ni)] == (if 1 <= xx
                    < i && 1 <= yy < ni - 1 {
                    div_cell(vx0, vy0, ni, xx, yy)
                } else {
                    d0[idx(xx, yy, ni)]
                }),
            forall|xx: int, yy: int|
                0 <= xx < ni && 0 <= yy < ni ==> #[trigger] p@[idx(xx, yy, ni)] == (if 1 <= xx < i
                    && 1 <= yy < ni - 1 {
                    0i64
                } else {
                    p0[idx(xx, yy, ni)]
                }),
    {
        for j in 1..(n - 1)
            invariant
                3 <= n <= NMAX,
                ni == n as int,
                den == 2 * (ni - 2),
                velx.len() == n * n,
                vely.len() == n * n,
                velx@ == vx0,
                vely@ == vy0,
                in_range(vx0),
                in_range(vy0),
                p0.len() == ni * ni,
                d0.len() == ni * ni,
                in_range(p0),
                in_range(d0),
                p.len() == n * n,
                div.len() == n * n,
                in_range(p@),
                in_range(div@),
                1 <= i < n - 1,
                forall|xx: int, yy: int|
                    0 <= xx < ni && 0 <= yy < ni ==> #[trigger] div@[idx(xx, yy, ni)] == (if (1
                        <= xx < i && 1 <= yy < ni - 1) || (xx == i && 1 <= yy < j) {
                        div_cell(vx0, vy0, ni, xx, yy)
                    } else {
                        d0[idx(xx, yy, ni)]
                    }),
                forall|xx: int, yy: int|
                    0 <= xx < ni && 0 <= yy < ni ==> #[trigger] p@[idx(xx, yy, ni)] == (if (1 <= xx
                        < i && 1 <= yy < ni - 1) || (xx == i && 1 <= yy < j) {
                        0i64
                    } else {
                        p0[idx(xx, yy, ni)]
                    }),
        {
            proof {
                lemma_idx_bounds(i as int, j as int, ni);
                lemma_idx_bounds(i as int - 1, j as int, ni);
                lemma_idx_bounds(i as int + 1, j as int, ni);
                lemma_idx_bounds(i as int, j as int - 1, ni);
                lemma_idx_bounds(i as int, j as int + 1, ni);
            }
            let c = ix(i as u32, j as u32, n as u32);
            let xr = velx[ix((i + 1) as u32, j as u32, n as u32)];
            let xl = velx[ix((i - 1) as u32, j as u32, n as u32)];
            let yu = vely[ix(i as u32, (j + 1) as u32, n as u32)];
            let yd = vely[ix(i as u32, (j - 1) as u32, n as u32)];
            let num: i128 = -((xr as i128) - (xl as i128) + (yu as i128) - (yd as i128));
            let q = tdiv_exec(num, den);
            let v = sat_exec(q);
            div.set(c, v);
            p.set(c, 0);
            proof {
                assert(v == div_cell(vx0, vy0, ni, i as int, j as int));
                assert forall|xx: int, yy: int|
                    0 <= xx < ni && 0 <= yy < ni implies #[trigger] div@[idx(xx, yy, ni)] == (if (1
                    <= xx < i && 1 <= yy < ni - 1) || (xx == i && 1 <= yy < j + 1) {
                    div_cell(vx0, vy0, ni, xx, yy)
                } else {
                    d0[idx(xx, yy, ni)]
                }) by {
                    lemma_idx_bounds(xx, yy, ni);
                }
                assert forall|xx: int, yy: int|
                    0 <= xx < ni && 0 <= yy < ni implies #[trigger] p@[idx(xx, yy, ni)] == (if (1
                    <= xx < i && 1 <= yy < ni - 1) || (xx == i && 1 <= yy < j + 1) {
                    0i64
                } else {
                    p0[idx(xx, yy, ni)]
                }) by {
                    lemma_idx_bounds(xx, yy, ni);
                }
            }
        }
    }
    proof {
        assert forall|c: int| 0 <= c < ni * ni implies div@[c] == div_field(vx0, vy0, d0, ni)[c] by {
            lemma_cell_coords(c, ni);
            lemma_idx_bounds(c % ni, c / ni, ni);
        }
        assert(div@ =~= div_field(vx0, vy0, d0, ni));
        assert forall|c: int| 0 <= c < ni * ni implies p@[c] == zeroed_interior(p0, ni)[c] by {
            lemma_cell_coords(c, ni);
            lemma_idx_bounds(c % ni, c / ni, ni);
        }
        assert(p@ =~= zeroed_interior(p0, ni));
    }
    set_bnd(n, BoundaryKind::Neutral, div);
    set_bnd(n, BoundaryKind::Neutral, p);
    lin_solve(n, BoundaryKind::Neutral, p, div, 1, 1, 4);
    let ghost pf = p@;
    let ghost vx1 = velx@;
    let ghost vy1 = vely@;
    for i in 1..(n - 1)
        invariant
            3 <= n <= NMAX,
            ni == n as int,
            p.len() == n * n,
            p@ == pf,
            in_range(pf),
            vx1.len() == ni * ni,
            vy1.len() == ni * ni,
            in_range(vx1),
            in_range(vy1),
            velx.len() == n * n,
            vely.len() == n * n,
            in_range(velx@),
            in_range(vely@),
            forall|xx: int, yy: int|
                0 <= xx < ni && 0 <= yy < ni ==> #[trigger] velx@[idx(xx, yy, ni)] == (if 1 <= xx
                    < i && 1 <= yy < ni - 1 {
                    grad_sub_x(vx1, pf, ni)[idx(xx, yy, ni)]
                } else {
                    vx1[idx(xx, yy, ni)]
                }),
            forall|xx: int, yy: int|
                0 <= xx < ni && 0 <= yy < ni ==> #[trigger] vely@[idx(xx, yy, ni)] == (if 1 <= xx
                    < i && 1 <= yy < ni - 1 {
                    grad_sub_y(vy1, pf, ni)[idx(xx, yy, ni)]
                } else {
                    vy1[idx(xx, yy, ni)]
                }),
    {
        for j in 1..(n - 1)
            invariant
                3 <= n <= NMAX,
                ni == n as int,
                p.len() == n * n,
                p@ == pf,
                in_range(pf),
                vx1.len() == ni * ni,
                vy1.len() == ni * ni,
                in_range(vx1),
                in_range(vy1),
                velx.len() == n * n,
                vely.len() == n * n,
                in_range(velx@),
                in_range(vely@),
                1 <= i < n - 1,
                forall|xx: int, yy: int|
                    0 <= xx < ni && 0 <= yy < ni ==> #[trigger] velx@[idx(xx, yy, ni)] == (if (1
                        <= xx < i && 1 <= yy < ni - 1) || (xx == i && 1 <= yy < j) {
                        grad_sub_x(vx1, pf, ni)[idx(xx, yy, ni)]
                    } else {
                        vx1[idx(xx, yy, ni)]
                    }),
                forall|xx: int, yy: int|
                    0 <= xx < ni && 0 <= yy < ni ==> #[trigger] vely@[idx(xx, yy, ni)] == (if (1
                        <= xx < i && 1 <= yy < ni - 1) || (xx == i && 1 <= yy < j) {
                        grad_sub_y(vy1, pf, ni)[idx(xx, yy, ni)]
                    } else {
                        vy1[idx(xx, yy, ni)]
                    }),
        {
            proof {
                lemma_idx_bounds(i as int, j as int, ni);
                lemma_idx_bounds(i as int - 1, j as int, ni);
                lemma_idx_bounds(i as int + 1, j as int, ni);
                lemma_idx_bounds(i as int, j as int - 1, ni);
                lemma_idx_bounds(i as int, j as int + 1, ni);
            }
            let c = ix(i as u32, j as u32, n as u32);
            let pxr = p[ix((i + 1) as u32, j as u32, n as u32)];
            let pxl = p[ix((i - 1) as u32, j as u32, n as u32)];
            let pyu = p[ix(i as u32, (j + 1) as u32, n as u32)];
            let pyd = p[ix(i as u32, (j - 1) as u32, n as u32)];
            proof {
                assert(((pxr as i128) - (pxl as i128)) * (((n - 2) as u32) as i128) <= (2
                    * VMAX as i128) * (NMAX as i128) && ((pxr as i128) - (pxl as i128)) * (((n
                    - 2) as u32) as i128) >= -((2 * VMAX as i128) * (NMAX as i128)))
                    by (nonlinear_arith)
                    requires
                        -(2 * VMAX as i128) <= (pxr as i128) - (pxl as i128) <= 2 * VMAX as i128
                            && 0 <= (((n - 2) as u32) as i128) <= NMAX as i128;
                assert(((pyu as i128) - (pyd as i128)) * (((n - 2) as u32) as i128) <= (2
                    * VMAX as i128) * (NMAX as i128) && ((pyu as i128) - (pyd as i128)) * (((n
                    - 2) as u32) as i128) >= -((2 * VMAX as i128) * (NMAX as i128)))
                    by (nonlinear_arith)
                    requires
                        -(2 * VMAX as i128) <= (pyu as i128) - (pyd as i128) <= 2 * VMAX as i128
                            && 0 <= (((n - 2) as u32) as i128) <= NMAX as i128;
            }
            let gx = tdiv_exec(((pxr as i128) - (pxl as i128)) * (((n - 2) as u32) as i128), 2);
            let gy = tdiv_exec(((pyu as i128) - (pyd as i128)) * (((n - 2) as u32) as i128), 2);
            let nvx = sat_exec((velx[c] as i128) - gx);
            let nvy = sat_exec((vely[c] as i128) - gy);
            velx.set(c, nvx);
            vely.set(c, nvy);
            proof {
                assert(nvx == grad_sub_x(vx1, pf, ni)[idx(i as int, j as int, ni)]);
                assert(nvy == grad_sub_y(vy1, pf, ni)[idx(i as int, j as int, ni)]);
                assert forall|xx: int, yy: int|
                    0 <= xx < ni && 0 <= yy < ni implies #[trigger] velx@[idx(xx, yy, ni)] == (if (1
                    <= xx < i && 1 <= yy < ni - 1) || (xx == i && 1 <= yy < j + 1) {
                    grad_sub_x(vx1, pf, ni)[idx(xx, yy, ni)]
                } else {
                    vx1[idx(xx, yy, ni)]
                }) by {
                    lemma_idx_bounds(xx, yy, ni);
                }
                assert forall|xx: int, yy: int|
                    0 <= xx < ni && 0 <= yy < ni implies #[trigger] vely@[idx(xx, yy, ni)] == (if (1
                    <= xx < i && 1 <= yy < ni - 1) || (xx == i && 1 <= yy < j + 1) {
                    grad_sub_y(vy1, pf, ni)[idx(xx, yy, ni)]
                } else {
                    vy1[idx(xx, yy, ni)]
                }) by {
                    lemma_idx_bounds(xx, yy, ni);
                }
            }
        }
    }
    proof {
        assert forall|c: int| 0 <= c < ni * ni implies velx@[c] == grad_sub_x(vx1, pf, ni)[c] by {
            lemma_cell_coords(c, ni);
            lemma_idx_bounds(c % ni, c / ni, ni);
        }
        assert(velx@ =~= grad_sub_x(vx1, pf, ni));
        assert forall|c: int| 0 <= c < ni * ni implies vely@[c] == grad_sub_y(vy1, pf, ni)[c] by {
            lemma_cell_coords(c, ni);
            lemma_idx_bounds(c % ni, c / ni, ni);
        }
        assert(vely@ =~= grad_sub_y(vy1, pf, ni));
    }
    set_bnd(n, BoundaryKind::ReflectX, velx);
    set_bnd(n, BoundaryKind::ReflectY, vely);
}

/// On an all-zero velocity field the measured divergence is zero
/// everywhere, so projection leaves every buffer exactly as it was.
pub proof fn lemma_project_zero(
    vx: Seq<i64>,
    vy: Seq<i64>,
    p0: Seq<i64>,
    d0: Seq<i64>,
    n: int,
)
    requires
        3 <= n,
        vx.len() == n * n,
        vy.len() == n * n,
        p0.len() == n * n,
        d0.len() == n * n,
        all_zero(vx),
        all_zero(vy),
        all_zero(p0),
        all_zero(d0),
    ensures
        project_div(vx, vy, d0, n) == d0,
        project_pressure(p0, vx, vy, d0, n) == p0,
        sb(BoundaryKind::ReflectX, grad_sub_x(vx, project_pressure(p0, vx, vy, d0, n), n), n)
            == vx,
        sb(BoundaryKind::ReflectY, grad_sub_y(vy, project_pressure(p0, vx, vy, d0, n), n), n)
            == vy,
{
    let df = div_field(vx, vy, d0, n);
    assert forall|c: int| 0 <= c < df.len() implies df[c] == d0[c] by {
        lemma_cell_coords(c, n);
        let i = c % n;
        let j = c / n;
        if 1 <= i < n - 1 && 1 <= j < n - 1 {
            lemma_idx_bounds(i + 1, j, n);
            lemma_idx_bounds(i - 1, j, n);
            lemma_idx_bounds(i, j + 1, n);
            lemma_idx_bounds(i, j - 1, n);
            lemma_tdiv_zero(2 * (n - 2));
            assert(d0[c] == 0);
        }
    }
    assert(df =~= d0);
    lemma_sb_zero(BoundaryKind::Neutral, d0, n);
    let zi = zeroed_interior(p0, n);
    assert forall|c: int| 0 <= c < zi.len() implies zi[c] == p0[c] by {
        lemma_cell_coords(c, n);
        if 1 <= c % n < n - 1 && 1 <= c / n < n - 1 {
            assert(p0[c] == 0);
        }
    }
    assert(zi =~= p0);
    lemma_sb_zero(BoundaryKind::Neutral, p0, n);
    lemma_ls_iters_zero(p0, d0, 1, 1, 4, BoundaryKind::Neutral, n, ITERS as int);
    let pr = project_pressure(p0, vx, vy, d0, n);
    assert(pr == p0);
    lemma_grad_zero_x(vx, pr, n);
    lemma_sb_zero(BoundaryKind::ReflectX, vx, n);
    lemma_grad_zero_y(vy, pr, n);
    lemma_sb_zero(BoundaryKind::ReflectY, vy, n);
}

/// Subtracting the gradient of an all-zero pressure changes nothing.
proof fn lemma_grad_zero_x(vx: Seq<i64>, p: Seq<i64>, n: int)
    requires
        3 <= n,
        vx.len() == n * n,
        p.len() == n * n,
        all_zero(vx),
        all_zero(p),
    ensures
        grad_sub_x(vx, p, n) == vx,
{
    let g = grad_sub_x(vx, p, n);
    assert forall|c: int| 0 <= c < g.len() implies g[c] == vx[c] by {
        lemma_cell_coords(c, n);
        let i = c % n;
        let j = c / n;
        if 1 <= i < n - 1 && 1 <= j < n - 1 {
            lemma_idx_bounds(i + 1, j, n);
            lemma_idx_bounds(i - 1, j, n);
            assert((p[idx(i + 1, j, n)] - p[idx(i - 1, j, n)]) * (n - 2) == 0) by (nonlinear_arith)
                requires p[idx(i + 1, j, n)] == 0 && p[idx(i - 1, j, n)] == 0;
            lemma_tdiv_zero(2);
            assert(vx[c] == 0);
        }
    }
    assert(g =~= vx);
}

/// Subtracting the gradient of an all-zero pressure changes nothing.
proof fn lemma_grad_zero_y(vy: Seq<i64>, p: Seq<i64>, n: int)
    requires
        3 <= n,
        vy.len() == n * n,
        p.len() == n * n,
        all_zero(vy),
        all_zero(p),
    ensures
        grad_sub_y(vy, p, n) == vy,
{
    let g = grad_sub_y(vy, p, n);
    assert forall|c: int| 0 <= c < g.len() implies g[c] == vy[c] by {
        lemma_cell_coords(c, n);
        let i = c % n;
        let j = c / n;
        if 1 <= i < n - 1 && 1 <= j < n - 1 {
            lemma_idx_bounds(i, j + 1, n);
            lemma_idx_bounds(i, j - 1, n);
            assert((p[idx(i, j + 1, n)] - p[idx(i, j - 1, n)]) * (n - 2) == 0) by (nonlinear_arith)
                requires p[idx(i, j + 1, n)] == 0 && p[idx(i, j - 1, n)] == 0;
            lemma_tdiv_zero(2);
            assert(vy[c] == 0);
        }
    }
    assert(g =~= vy);
}

} // verus!
