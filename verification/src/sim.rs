//! The grid solver: two coupled fields (velocity and density), each with a
//! current and a previous buffer, advanced one tick at a time.
//!
//! A tick runs the density step (diffuse, advect along the velocity,
//! dissipate) and then the velocity step (diffuse both components, project,
//! self-advect, project again), exactly in that order: density advection
//! must see the previous tick's velocity field.

use vstd::prelude::*;

use crate::adv::{DT_CAP, adv_interior, advect};
use crate::bnd::{BoundaryKind, sb};
use crate::disp::{disp_field, disperse};
use crate::lin::{diffuse, diffusion_af, ls_iters};
use crate::nums::{
    DISPERSION_DEFAULT, ITERS, NMAX, PARAM_MAX, SCALE, all_zero, idx, in_range, sat_val,
    lemma_idx_bounds,
};
use crate::proj::{grad_sub_x, grad_sub_y, project, project_div, project_pressure};

verus! {

/// Fixed-point time-step scale density advection always uses (0.005 in
/// real units), regardless of the configured simulation speed.
pub const DENSITY_SPEED: i64 = 5_000;

/// The solver's mathematical state: the four parameters, the grid side,
/// and the six field buffers as sequences.
#[verifier::ext_equal]
pub ghost struct SimView {
    pub speed: int,
    pub viscosity: int,
    pub diffusion: int,
    pub dispersion: int,
    pub n: int,
    pub density: Seq<i64>,
    pub prev_density: Seq<i64>,
    pub vel_x: Seq<i64>,
    pub vel_y: Seq<i64>,
    pub prev_vel_x: Seq<i64>,
    pub prev_vel_y: Seq<i64>,
}

impl SimView {
    /// Well-formedness: a grid side the machine can index, parameters in
    /// their accepted ranges, and six buffers of the right length with
    /// every value in the stored range.
    pub open spec fn wf(self) -> bool {
        &&& 3 <= self.n <= NMAX as int
        &&& 0 <= self.speed <= PARAM_MAX as int
        &&& 0 <= self.viscosity <= PARAM_MAX as int
        &&& 0 <= self.diffusion <= PARAM_MAX as int
        &&& 0 <= self.dispersion <= SCALE as int
        &&& self.density.len() == self.n * self.n
        &&& self.prev_density.len() == self.n * self.n
        &&& self.vel_x.len() == self.n * self.n
        &&& self.vel_y.len() == self.n * self.n
        &&& self.prev_vel_x.len() == self.n * self.n
        &&& self.prev_vel_y.len() == self.n * self.n
        &&& in_range(self.density)
        &&& in_range(self.prev_density)
        &&& in_range(self.vel_x)
        &&& in_range(self.vel_y)
        &&& in_range(self.prev_vel_x)
        &&& in_range(self.prev_vel_y)
    }

    /// All six buffers hold only zeroes.
    pub open spec fn is_zero(self) -> bool {
        &&& all_zero(self.density)
        &&& all_zero(self.prev_density)
        &&& all_zero(self.vel_x)
        &&& all_zero(self.vel_y)
        &&& all_zero(self.prev_vel_x)
        &&& all_zero(self.prev_vel_y)
    }
}

/// One density step: swap the density buffers, diffuse at the configured
/// diffusion rate, swap back, advect the diffused field along the velocity
/// field with the fixed density time-step scale, dissipate.
pub open spec fn density_step_spec(s: SimView) -> SimView {
    let af = diffusion_af(s.speed, s.diffusion, s.n);
    let diffused = ls_iters(
        s.prev_density,
        s.density,
        af,
        SCALE as int,
        SCALE as int + 4 * af,
        BoundaryKind::Neutral,
        s.n,
        ITERS as int,
    );
    let advected = sb(
        BoundaryKind::Neutral,
        adv_interior(
            s.density,
            diffused,
            s.vel_x,
            s.vel_y,
            (DENSITY_SPEED as int) * (s.n - 2),
            s.n,
        ),
        s.n,
    );
    SimView { density: disp_field(advected, s.dispersion), prev_density: diffused, ..s }
}

/// One velocity step: diffuse both components at the viscosity, project,
/// self-advect the projected field, project again. The previous-velocity
/// buffers end up holding the last pressure solve and divergence.
pub open spec fn velocity_step_spec(s: SimView) -> SimView {
    let af = diffusion_af(s.speed, s.viscosity, s.n);
    let den = SCALE as int + 4 * af;
    let vx1 = ls_iters(
        s.prev_vel_x,
        s.vel_x,
        af,
        SCALE as int,
        den,
        BoundaryKind::ReflectX,
        s.n,
        ITERS as int,
    );
    let vy1 = ls_iters(
        s.prev_vel_y,
        s.vel_y,
        af,
        SCALE as int,
        den,
        BoundaryKind::ReflectY,
        s.n,
        ITERS as int,
    );
    let div1 = project_div(vx1, vy1, s.vel_y, s.n);
    let p1 = project_pressure(s.vel_x, vx1, vy1, s.vel_y, s.n);
    let vx2 = sb(BoundaryKind::ReflectX, grad_sub_x(vx1, p1, s.n), s.n);
    let vy2 = sb(BoundaryKind::ReflectY, grad_sub_y(vy1, p1, s.n), s.n);
    let dt0 = s.speed * (s.n - 2);
    let vx3 = sb(BoundaryKind::ReflectX, adv_interior(p1, vx2, vx2, vy2, dt0, s.n), s.n);
    let vy3 = sb(BoundaryKind::ReflectY, adv_interior(div1, vy2, vx2, vy2, dt0, s.n), s.n);
    let div2 = project_div(vx3, vy3, vy2, s.n);
    let p2 = project_pressure(vx2, vx3, vy3, vy2, s.n);
    let vx4 = sb(BoundaryKind::ReflectX, grad_sub_x(vx3, p2, s.n), s.n);
    let vy4 = sb(BoundaryKind::ReflectY, grad_sub_y(vy3, p2, s.n), s.n);
    SimView { vel_x: vx4, vel_y: vy4, prev_vel_x: p2, prev_vel_y: div2, ..s }
}

/// One full tick: the density step, then the velocity step.
pub open spec fn step_spec(s: SimView) -> SimView {
    velocity_step_spec(density_step_spec(s))
}

/// The grid solver.
pub struct Simulation {
    speed: i64,
    viscosity: i64,
    diffusion: i64,
    dispersion: i64,
    size: usize,
    density: Vec<i64>,
    prev_density: Vec<i64>,
    vel_x: Vec<i64>,
    vel_y: Vec<i64>,
    prev_vel_x: Vec<i64>,
    prev_vel_y: Vec<i64>,
}

impl View for Simulation {
    type V = SimView;

    closed spec fn view(&self) -> SimView {
        SimView {
            speed: self.speed as int,
            viscosity: self.viscosity as int,
            diffusion: self.diffusion as int,
            dispersion: self.dispersion as int,
            n: self.size as int,
            density: self.density@,
            prev_density: self.prev_density@,
            vel_x: self.vel_x@,
            vel_y: self.vel_y@,
            prev_vel_x: self.prev_vel_x@,
            prev_vel_y: self.prev_vel_y@,
        }
    }
}

/// A zero-filled buffer of the given length.
fn zero_vec(len: usize) -> (v: Vec<i64>)
    ensures
        v@.len() == len,
        all_zero(v@),
        in_range(v@),
{
    let mut v: Vec<i64> = Vec::new();
    for i in 0..len
        invariant
            v@.len() == i,
            all_zero(v@),
            in_range(v@),
    {
        v.push(0);
    }
    v
}

impl Simulation {
    /// A fresh solver with all six buffers zeroed. A grid of side below 3
    /// has no interior cell and is rejected.
    pub fn new(speed: i64, viscosity: i64, diffusion: i64, size: usize) -> (r: Option<Simulation>)
        requires
            0 <= speed <= PARAM_MAX,
            0 <= viscosity <= PARAM_MAX,
            0 <= diffusion <= PARAM_MAX,
            size <= NMAX,
        ensures
            r is Some <==> size >= 3,
            r matches Some(sim) ==> {
                &&& sim@.wf()
                &&& sim@.is_zero()
                &&& sim@.n == size as int
                &&& sim@.speed == speed as int
                &&& sim@.viscosity == viscosity as int
                &&& sim@.diffusion == diffusion as int
                &&& sim@.dispersion == DISPERSION_DEFAULT as int
            },
    {
        if size < 3 {
            return None;
        }
        proof {
            assert(size * size <= NMAX * NMAX) by (nonlinear_arith)
                requires size <= NMAX;
        }
        let cells = size * size;
        Some(
            Simulation {
                speed,
                viscosity,
                diffusion,
                dispersion: DISPERSION_DEFAULT,
                size,
                density: zero_vec(cells),
                prev_density: zero_vec(cells),
                vel_x: zero_vec(cells),
                vel_y: zero_vec(cells),
                prev_vel_x: zero_vec(cells),
                prev_vel_y: zero_vec(cells),
            },
        )
    }

    /// The current horizontal velocity field, row-major.
    pub fn vel_x(&self) -> (r: &Vec<i64>)
        ensures
            r@ == self@.vel_x,
    {
        &self.vel_x
    }

    /// The current vertical velocity field, row-major.
    pub fn vel_y(&self) -> (r: &Vec<i64>)
        ensures
            r@ == self@.vel_y,
    {
        &self.vel_y
    }

    /// The current density field, row-major.
    pub fn density(&self) -> (r: &Vec<i64>)
        ensures
            r@ == self@.density,
    {
        &self.density
    }

    /// The grid side, boundary ring included.
    pub fn size(&self) -> (r: u32)
        requires
            self@.wf(),
        ensures
            r as int == self@.n,
    {
        self.size as u32
    }

    /// Row-major index of cell (x, y), the same formula renderers must use.
    pub fn ix(&self, x: u32, y: u32) -> (r: usize)
        requires
            self@.wf(),
            x < self@.n,
            y < self@.n,
        ensures
            r as int == idx(x as int, y as int, self@.n),
            r < self@.n * self@.n,
    {
        crate::nums::ix(x, y, self.size as u32)
    }

    /// Add `amount` of dye at cell (x, y) (saturating at the stored
    /// range). Callers are expected to keep (x, y) within the interior.
    pub fn add_density(&mut self, x: u32, y: u32, amount: i64)
        requires
            old(self)@.wf(),
            x < old(self)@.n,
            y < old(self)@.n,
        ensures
            final(self)@ == (SimView {
                density: old(self)@.density.update(
                    idx(x as int, y as int, old(self)@.n),
                    sat_val(old(self)@.density[idx(x as int, y as int, old(self)@.n)] + amount),
                ),
                ..old(self)@
            }),
            final(self)@.wf(),
    {
        proof {
            lemma_idx_bounds(x as int, y as int, self@.n);
        }
        let index = crate::nums::ix(x, y, self.size as u32);
        let v = crate::nums::sat_exec((self.density[index] as i128) + (amount as i128));
        self.density.set(index, v);
    }

    /// Add a velocity delta at cell (x, y) (saturating at the stored
    /// range). Callers are expected to keep (x, y) within the interior.
    pub fn add_velocity(&mut self, x: u32, y: u32, vx: i64, vy: i64)
        requires
            old(self)@.wf(),
            x < old(self)@.n,
            y < old(self)@.n,
        ensures
            final(self)@ == (SimView {
                vel_x: old(self)@.vel_x.update(
                    idx(x as int, y as int, old(self)@.n),
                    sat_val(old(self)@.vel_x[idx(x as int, y as int, old(self)@.n)] + vx),
                ),
                vel_y: old(self)@.vel_y.update(
                    idx(x as int, y as int, old(self)@.n),
                    sat_val(old(self)@.vel_y[idx(x as int, y as int, old(self)@.n)] + vy),
                ),
                ..old(self)@
            }),
            final(self)@.wf(),
    {
        proof {
            lemma_idx_bounds(x as int, y as int, self@.n);
        }
        let index = crate::nums::ix(x, y, self.size as u32);
        let nvx = crate::nums::sat_exec((self.vel_x[index] as i128) + (vx as i128));
        self.vel_x.set(index, nvx);
        let nvy = crate::nums::sat_exec((self.vel_y[index] as i128) + (vy as i128));
        self.vel_y.set(index, nvy);
    }

    /// Advance the simulation exactly one tick: the density step, then the
    /// velocity step.
    pub fn step(&mut self)
        requires
            old(self)@.wf(),
        ensures
            final(self)@ == step_spec(old(self)@),
            final(self)@.wf(),
    {
        self.density_step();
        self.velocity_step();
    }

    /// The density half of a tick: diffuse, advect along the current
    /// velocity field, dissipate.
    pub fn density_step(&mut self)
        requires
            old(self)@.wf(),
        ensures
            final(self)@ == density_step_spec(old(self)@),
            final(self)@.wf(),
    {
        let size = self.size;
        core::mem::swap(&mut self.density, &mut self.prev_density);
        diffuse(
            size,
            BoundaryKind::Neutral,
            &mut self.density,
            &self.prev_density,
            self.diffusion,
            self.speed,
        );
        core::mem::swap(&mut self.density, &mut self.prev_density);
        proof {
            assert(0 <= (DENSITY_SPEED as i128) * (((size - 2) as usize) as i128) <= DT_CAP)
                by (nonlinear_arith)
                requires 3 <= size <= NMAX;
        }
        advect(
            size,
            BoundaryKind::Neutral,
            &mut self.density,
            &self.prev_density,
            &self.vel_x,
            &self.vel_y,
            (DENSITY_SPEED as i128) * (((size - 2) as usize) as i128),
        );
        disperse(self.dispersion, &mut self.density);
    }

    /// The velocity half of a tick: diffuse both components, project out
    /// divergence, self-advect, project again.
    pub fn velocity_step(&mut self)
        requires
            old(self)@.wf(),
        ensures
            final(self)@ == velocity_step_spec(old(self)@),
            final(self)@.wf(),
    {
        let size = self.size;
        core::mem::swap(&mut self.vel_x, &mut self.prev_vel_x);
        core::mem::swap(&mut self.vel_y, &mut self.prev_vel_y);
        diffuse(
            size,
            BoundaryKind::ReflectX,
            &mut self.vel_x,
            &self.prev_vel_x,
            self.viscosity,
            self.speed,
        );
        diffuse(
            size,
            BoundaryKind::ReflectY,
            &mut self.vel_y,
            &self.prev_vel_y,
            self.viscosity,
            self.speed,
        );
        project(
            size,
            &mut self.vel_x,
            &mut self.vel_y,
            &mut self.prev_vel_x,
            &mut self.prev_vel_y,
        );
        core::mem::swap(&mut self.vel_x, &mut self.prev_vel_x);
        core::mem::swap(&mut self.vel_y, &mut self.prev_vel_y);
        proof {
            assert(0 <= (self.speed as i128) * (((size - 2) as usize) as i128) <= DT_CAP)
                by (nonlinear_arith)
                requires 3 <= size <= NMAX && 0 <= self.speed <= PARAM_MAX;
        }
        let dt0: i128 = (self.speed as i128) * (((size - 2) as usize) as i128);
        advect(
            size,
            BoundaryKind::ReflectX,
            &mut self.vel_x,
            &self.prev_vel_x,
            &self.prev_vel_x,
            &self.prev_vel_y,
            dt0,
        );
        advect(
            size,
            BoundaryKind::ReflectY,
            &mut self.vel_y,
            &self.prev_vel_y,
            &self.prev_vel_x,
            &self.prev_vel_y,
            dt0,
        );
        project(
            size,
            &mut self.vel_x,
            &mut self.vel_y,
            &mut self.prev_vel_x,
            &mut self.prev_vel_y,
        );
    }
}

} // verus!
