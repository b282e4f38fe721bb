//! The solver's general laws, stated and proved over the spec functions
//! the executable contracts use.

use vstd::prelude::*;

use crate::adv::{adv_interior, lemma_adv_cell_zero_velocity, lemma_adv_interior_zero};
use crate::bnd::{
    BoundaryKind, boundary_consistent, lemma_sb_boundary_consistent, lemma_sb_interior,
    lemma_sb_zero, sb,
};
use crate::disp::lemma_disp_zero;
use crate::lin::{
    diffusion_af, lemma_ls_iters_af0, lemma_ls_iters_zero, ls_iters,
};
use crate::nums::{
    ITERS, SCALE, all_zero, idx, in_range, lemma_idx_bounds, lemma_tdiv_nonneg, lemma_tdiv_zero,
};
use crate::proj::lemma_project_zero;
use crate::sim::{SimView, density_step_spec, step_spec, velocity_step_spec};

verus! {

/// The state after `k` ticks.
pub open spec fn steps_spec(s: SimView, k: nat) -> SimView
    decreases k,
{
    if k == 0 {
        s
    } else {
        step_spec(steps_spec(s, (k - 1) as nat))
    }
}

/// Diffusion's neighbour factor is zero whenever the rate or the speed is.
proof fn lemma_af_zero(speed: int, rate: int, n: int)
    requires
        speed == 0 || rate == 0,
    ensures
        diffusion_af(speed, rate, n) == 0,
{
    assert(speed * rate * ((n - 2) * (n - 2)) == 0) by (nonlinear_arith)
        requires speed == 0 || rate == 0;
    lemma_tdiv_zero(SCALE as int);
}

/// Diffusion's neighbour factor is never negative for admissible
/// parameters.
proof fn lemma_af_nonneg(speed: int, rate: int, n: int)
    requires
        0 <= speed,
        0 <= rate,
        3 <= n,
    ensures
        0 <= diffusion_af(speed, rate, n),
{
    assert(0 <= speed * rate * ((n - 2) * (n - 2))) by (nonlinear_arith)
        requires 0 <= speed && 0 <= rate && 3 <= n;
    lemma_tdiv_nonneg(speed * rate * ((n - 2) * (n - 2)), SCALE as int);
}

/// The density step of an all-zero state changes nothing.
pub proof fn lemma_density_step_zero(s: SimView)
    requires
        s.wf(),
        s.is_zero(),
    ensures
        density_step_spec(s) == s,
{
    let af = diffusion_af(s.speed, s.diffusion, s.n);
    lemma_af_nonneg(s.speed, s.diffusion, s.n);
    lemma_ls_iters_zero(
        s.prev_density,
        s.density,
        af,
        SCALE as int,
        SCALE as int + 4 * af,
        BoundaryKind::Neutral,
        s.n,
        ITERS as int,
    );
    let diffused = ls_iters(
        s.prev_density,
        s.density,
        af,
        SCALE as int,
        SCALE as int + 4 * af,
        BoundaryKind::Neutral,
        s.n,
        ITERS as int,
    );
    lemma_adv_interior_zero(
        s.density,
        diffused,
        s.vel_x,
        s.vel_y,
        (crate::sim::DENSITY_SPEED as int) * (s.n - 2),
        s.n,
    );
    lemma_sb_zero(BoundaryKind::Neutral, s.density, s.n);
    lemma_disp_zero(s.density, s.dispersion);
    assert(density_step_spec(s) =~= s);
}

/// The velocity step of an all-zero state changes nothing.
pub proof fn lemma_velocity_step_zero(s: SimView)
    requires
        s.wf(),
        s.is_zero(),
    ensures
        velocity_step_spec(s) == s,
{
    let af = diffusion_af(s.speed, s.viscosity, s.n);
    let den = SCALE as int + 4 * af;
    lemma_af_nonneg(s.speed, s.viscosity, s.n);
    lemma_ls_iters_zero(
        s.prev_vel_x,
        s.vel_x,
        af,
        SCALE as int,
        den,
        BoundaryKind::ReflectX,
        s.n,
        ITERS as int,
    );
    lemma_ls_iters_zero(
        s.prev_vel_y,
        s.vel_y,
        af,
        SCALE as int,
        den,
        BoundaryKind::ReflectY,
        s.n,
        ITERS as int,
    );
    let vx1 = ls_iters(
        s.prev_vel_x,
        s.vel_x,
        af,
        SCALE as int,
        den,
        BoundaryKind::ReflectX,
        s.n,
        ITERS as int,
    );
    let vy1 = ls_iters(
        s.prev_vel_y,
        s.vel_y,
        af,
        SCALE as int,
        den,
        BoundaryKind::ReflectY,
        s.n,
        ITERS as int,
    );
    lemma_project_zero(vx1, vy1, s.vel_x, s.vel_y, s.n);
    let p1 = crate::proj::project_pressure(s.vel_x, vx1, vy1, s.vel_y, s.n);
    let div1 = crate::proj::project_div(vx1, vy1, s.vel_y, s.n);
    let vx2 = sb(BoundaryKind::ReflectX, crate::proj::grad_sub_x(vx1, p1, s.n), s.n);
    let vy2 = sb(BoundaryKind::ReflectY, crate::proj::grad_sub_y(vy1, p1, s.n), s.n);
    lemma_adv_interior_zero(p1, vx2, vx2, vy2, s.speed * (s.n - 2), s.n);
    lemma_sb_zero(BoundaryKind::ReflectX, p1, s.n);
    lemma_adv_interior_zero(div1, vy2, vx2, vy2, s.speed * (s.n - 2), s.n);
    lemma_sb_zero(BoundaryKind::ReflectY, div1, s.n);
    let vx3 = sb(
        BoundaryKind::ReflectX,
        adv_interior(p1, vx2, vx2, vy2, s.speed * (s.n - 2), s.n),
        s.n,
    );
    let vy3 = sb(
        BoundaryKind::ReflectY,
        adv_interior(div1, vy2, vx2, vy2, s.speed * (s.n - 2), s.n),
        s.n,
    );
    lemma_project_zero(vx3, vy3, vx2, vy2, s.n);
    assert(velocity_step_spec(s) =~= s);
}

/// Starting from an all-zero grid, one tick leaves every field zero: the
/// zero state is a fixed point of the step.
pub proof fn lemma_step_zero(s: SimView)
    requires
        s.wf(),
        s.is_zero(),
    ensures
        step_spec(s) == s,
{
    lemma_density_step_zero(s);
    lemma_velocity_step_zero(s);
}

/// Starting from an all-zero grid, any number of ticks leaves every field
/// zero.
pub proof fn lemma_steps_zero(s: SimView, k: nat)
    requires
        s.wf(),
        s.is_zero(),
    ensures
        steps_spec(s, k) == s,
    decreases k,
{
    if k > 0 {
        lemma_steps_zero(s, (k - 1) as nat);
        lemma_step_zero(s);
    }
}

/// Diffusing with a zero diffusion rate (or a zero speed) leaves every
/// interior cell exactly equal to the source field, whatever the 20 sweeps
/// started from.
pub proof fn lemma_diffusion_identity(
    cur0: Seq<i64>,
    prev: Seq<i64>,
    rate: int,
    speed: int,
    b: BoundaryKind,
    n: int,
)
    requires
        3 <= n,
        cur0.len() == n * n,
        prev.len() == n * n,
        in_range(cur0),
        in_range(prev),
        rate == 0 || speed == 0,
    ensures
        forall|x: int, y: int|
            1 <= x < n - 1 && 1 <= y < n - 1 ==> ls_iters(
                cur0,
                prev,
                diffusion_af(speed, rate, n),
                SCALE as int,
                SCALE as int + 4 * diffusion_af(speed, rate, n),
                b,
                n,
                ITERS as int,
            )[#[trigger] idx(x, y, n)] == prev[idx(x, y, n)],
{
    lemma_af_zero(speed, rate, n);
    lemma_ls_iters_af0(cur0, prev, SCALE as int, b, n, ITERS as int);
}

/// Advecting along an everywhere-zero velocity field leaves every interior
/// cell exactly equal to the source field: the backtrace lands on the cell
/// itself and interpolation returns its value.
pub proof fn lemma_advection_identity(
    cur0: Seq<i64>,
    prev: Seq<i64>,
    vx: Seq<i64>,
    vy: Seq<i64>,
    dt0: int,
    b: BoundaryKind,
    n: int,
)
    requires
        3 <= n,
        cur0.len() == n * n,
        prev.len() == n * n,
        vx.len() == n * n,
        vy.len() == n * n,
        in_range(prev),
        all_zero(vx),
        all_zero(vy),
        0 <= dt0,
    ensures
        forall|x: int, y: int|
            1 <= x < n - 1 && 1 <= y < n - 1 ==> sb(b, adv_interior(cur0, prev, vx, vy, dt0, n), n)[
                #[trigger] idx(x, y, n)
            ] == prev[idx(x, y, n)],
{
    let merged = adv_interior(cur0, prev, vx, vy, dt0, n);
    lemma_sb_interior(b, merged, n);
    assert forall|x: int, y: int| 1 <= x < n - 1 && 1 <= y < n - 1 implies sb(b, merged, n)[
    #[trigger] idx(x, y, n)] == prev[idx(x, y, n)] by {
        lemma_idx_bounds(x, y, n);
        lemma_adv_cell_zero_velocity(prev, vx, vy, dt0, n, x, y);
    }
}

/// Every relaxation solve (at least one sweep) hands back a
/// boundary-consistent field: each primitive ends in boundary enforcement.
pub proof fn lemma_ls_iters_boundary_consistent(
    cur0: Seq<i64>,
    prev: Seq<i64>,
    af: int,
    uf: int,
    den: int,
    b: BoundaryKind,
    n: int,
    it: int,
)
    requires
        3 <= n,
        1 <= it,
    ensures
        boundary_consistent(b, ls_iters(cur0, prev, af, uf, den, b, n, it), n),
{
    let swept = crate::lin::ls_sweep(
        ls_iters(cur0, prev, af, uf, den, b, n, it - 1),
        prev,
        af,
        uf,
        den,
        n,
        (n - 2) * (n - 2),
    );
    lemma_sb_boundary_consistent(b, swept, n);
}

/// Advection hands back a boundary-consistent field: it ends in boundary
/// enforcement.
pub proof fn lemma_advect_boundary_consistent(
    cur0: Seq<i64>,
    prev: Seq<i64>,
    vx: Seq<i64>,
    vy: Seq<i64>,
    dt0: int,
    b: BoundaryKind,
    n: int,
)
    requires
        3 <= n,
    ensures
        boundary_consistent(b, sb(b, adv_interior(cur0, prev, vx, vy, dt0, n), n), n),
{
    lemma_sb_boundary_consistent(b, adv_interior(cur0, prev, vx, vy, dt0, n), n);
}

/// Projection hands back boundary-consistent fields: the divergence and
/// pressure buffers under the neutral kind, each corrected velocity
/// component under its reflection kind.
pub proof fn lemma_project_boundary_consistent(
    vx: Seq<i64>,
    vy: Seq<i64>,
    p0: Seq<i64>,
    d0: Seq<i64>,
    n: int,
)
    requires
        3 <= n,
    ensures
        boundary_consistent(
            BoundaryKind::Neutral,
            crate::proj::project_div(vx, vy, d0, n),
            n,
        ),
        boundary_consistent(
            BoundaryKind::Neutral,
            crate::proj::project_pressure(p0, vx, vy, d0, n),
            n,
        ),
        boundary_consistent(
            BoundaryKind::ReflectX,
            sb(
                BoundaryKind::ReflectX,
                crate::proj::grad_sub_x(
                    vx,
                    crate::proj::project_pressure(p0, vx, vy, d0, n),
                    n,
                ),
                n,
            ),
            n,
        ),
        boundary_consistent(
            BoundaryKind::ReflectY,
            sb(
                BoundaryKind::ReflectY,
                crate::proj::grad_sub_y(
                    vy,
                    crate::proj::project_pressure(p0, vx, vy, d0, n),
                    n,
                ),
                n,
            ),
            n,
        ),
{
    let pr = crate::proj::project_pressure(p0, vx, vy, d0, n);
    lemma_sb_boundary_consistent(
        BoundaryKind::Neutral,
        crate::proj::div_field(vx, vy, d0, n),
        n,
    );
    lemma_ls_iters_boundary_consistent(
        sb(BoundaryKind::Neutral, crate::proj::zeroed_interior(p0, n), n),
        crate::proj::project_div(vx, vy, d0, n),
        1,
        1,
        4,
        BoundaryKind::Neutral,
        n,
        ITERS as int,
    );
    lemma_sb_boundary_consistent(BoundaryKind::ReflectX, crate::proj::grad_sub_x(vx, pr, n), n);
    lemma_sb_boundary_consistent(BoundaryKind::ReflectY, crate::proj::grad_sub_y(vy, pr, n), n);
}

/// After a full tick both velocity components are boundary-consistent for
/// their reflection kinds: the velocity step ends in projection, which ends
/// in boundary enforcement.
pub proof fn lemma_step_velocity_boundary_consistent(s: SimView)
    requires
        s.wf(),
    ensures
        boundary_consistent(BoundaryKind::ReflectX, step_spec(s).vel_x, s.n),
        boundary_consistent(BoundaryKind::ReflectY, step_spec(s).vel_y, s.n),
{
    let d = density_step_spec(s);
    let af = diffusion_af(d.speed, d.viscosity, d.n);
    let den = SCALE as int + 4 * af;
    let vx1 = ls_iters(
        d.prev_vel_x,
        d.vel_x,
        af,
        SCALE as int,
        den,
        BoundaryKind::ReflectX,
        d.n,
        ITERS as int,
    );
    let vy1 = ls_iters(
        d.prev_vel_y,
        d.vel_y,
        af,
        SCALE as int,
        den,
        BoundaryKind::ReflectY,
        d.n,
        ITERS as int,
    );
    let div1 = crate::proj::project_div(vx1, vy1, d.vel_y, d.n);
    let p1 = crate::proj::project_pressure(d.vel_x, vx1, vy1, d.vel_y, d.n);
    let vx2 = sb(BoundaryKind::ReflectX, crate::proj::grad_sub_x(vx1, p1, d.n), d.n);
    let vy2 = sb(BoundaryKind::ReflectY, crate::proj::grad_sub_y(vy1, p1, d.n), d.n);
    let dt0 = d.speed * (d.n - 2);
    let vx3 = sb(BoundaryKind::ReflectX, adv_interior(p1, vx2, vx2, vy2, dt0, d.n), d.n);
    let vy3 = sb(BoundaryKind::ReflectY, adv_interior(div1, vy2, vx2, vy2, dt0, d.n), d.n);
    let p2 = crate::proj::project_pressure(vx2, vx3, vy3, vy2, d.n);
    lemma_sb_boundary_consistent(
        BoundaryKind::ReflectX,
        crate::proj::grad_sub_x(vx3, p2, d.n),
        d.n,
    );
    lemma_sb_boundary_consistent(
        BoundaryKind::ReflectY,
        crate::proj::grad_sub_y(vy3, p2, d.n),
        d.n,
    );
}

} // verus!
