//! Scenario tests for the solver's stated properties, on concrete grids.

use fluid_engine::{
    BoundaryKind, DISPERSION_DEFAULT, SCALE, Simulation, advect, diffuse, disperse, ix, project,
    set_bnd,
};

/// Truncating division, as the solver computes it.
fn tdiv_ref(num: i128, den: i128) -> i128 {
    if num >= 0 { num / den } else { -((-num) / den) }
}

fn cell(n: usize, x: usize, y: usize) -> usize {
    x + y * n
}

#[test]
fn zero_fixed_point() {
    let mut sim = Simulation::new(5_000, 500, 0, 8).unwrap();
    for _ in 0..3 {
        sim.step();
    }
    for c in 0..64 {
        assert_eq!(sim.density()[c], 0);
        assert_eq!(sim.vel_x()[c], 0);
        assert_eq!(sim.vel_y()[c], 0);
    }
}

#[test]
fn boundary_consistency_all_kinds() {
    let n: usize = 6;
    for kind in [BoundaryKind::Neutral, BoundaryKind::ReflectX, BoundaryKind::ReflectY] {
        let mut cur: Vec<i64> = (0..(n * n) as i64).map(|c| (c * 37 % 91) - 45).collect();
        set_bnd(n, kind, &mut cur);
        for i in 1..n - 1 {
            let (sy, sx) = match kind {
                BoundaryKind::ReflectY => (-1, 1),
                BoundaryKind::ReflectX => (1, -1),
                BoundaryKind::Neutral => (1, 1),
            };
            assert_eq!(cur[cell(n, i, 0)], sy * cur[cell(n, i, 1)]);
            assert_eq!(cur[cell(n, i, n - 1)], sy * cur[cell(n, i, n - 2)]);
            assert_eq!(cur[cell(n, 0, i)], sx * cur[cell(n, 1, i)]);
            assert_eq!(cur[cell(n, n - 1, i)], sx * cur[cell(n, n - 2, i)]);
        }
        let avg = |a: i64, b: i64| tdiv_ref(a as i128 + b as i128, 2) as i64;
        assert_eq!(cur[cell(n, 0, 0)], avg(cur[cell(n, 1, 0)], cur[cell(n, 0, 1)]));
        assert_eq!(
            cur[cell(n, 0, n - 1)],
            avg(cur[cell(n, 1, n - 1)], cur[cell(n, 0, n - 2)])
        );
        assert_eq!(
            cur[cell(n, n - 1, 0)],
            avg(cur[cell(n, n - 2, 0)], cur[cell(n, n - 1, 1)])
        );
        assert_eq!(
            cur[cell(n, n - 1, n - 1)],
            avg(cur[cell(n, n - 2, n - 1)], cur[cell(n, n - 1, n - 2)])
        );
    }
}

#[test]
fn dispersion_mass_exact() {
    // Every value is a multiple of 2000, so value * 500 divides SCALE
    // evenly and the mass relation holds exactly.
    let mut d: Vec<i64> = vec![0, 2_000, -4_000, 1_000_000, 6_000, 2_000_000, -2_000, 8_000];
    let before: i128 = d.iter().map(|&v| v as i128).sum();
    disperse(DISPERSION_DEFAULT, &mut d);
    let after: i128 = d.iter().map(|&v| v as i128).sum();
    assert_eq!(after * SCALE as i128, (SCALE as i128 - 500) * before);
    assert_eq!(d[1], 1_999);
    assert_eq!(d[3], 999_500);
}

#[test]
fn dispersion_truncates_small_values() {
    // 1 * 500 / SCALE truncates to zero: a cell of one unit keeps it.
    let mut d: Vec<i64> = vec![1, -1];
    disperse(DISPERSION_DEFAULT, &mut d);
    assert_eq!(d, vec![1, -1]);
}

#[test]
fn diffusion_identity_at_zero_rate() {
    let n: usize = 7;
    let prev: Vec<i64> = (0..(n * n) as i64).map(|c| c * 13_000 % 700_000).collect();
    let mut cur: Vec<i64> = vec![123; n * n];
    diffuse(n, BoundaryKind::Neutral, &mut cur, &prev, 0, 5_000);
    for x in 1..n - 1 {
        for y in 1..n - 1 {
            assert_eq!(cur[cell(n, x, y)], prev[cell(n, x, y)]);
        }
    }
}

#[test]
fn diffusion_identity_at_zero_speed() {
    let n: usize = 7;
    let prev: Vec<i64> = (0..(n * n) as i64).map(|c| c * 17_000 % 500_000 - 250_000).collect();
    let mut cur: Vec<i64> = vec![-9; n * n];
    diffuse(n, BoundaryKind::ReflectX, &mut cur, &prev, 40_000, 0);
    for x in 1..n - 1 {
        for y in 1..n - 1 {
            assert_eq!(cur[cell(n, x, y)], prev[cell(n, x, y)]);
        }
    }
}

#[test]
fn advection_identity_on_zero_velocity() {
    let n: usize = 9;
    let prev: Vec<i64> = (0..(n * n) as i64).map(|c| c * 31_000 % 900_000 - 400_000).collect();
    let vel: Vec<i64> = vec![0; n * n];
    let mut cur: Vec<i64> = vec![77; n * n];
    advect(n, BoundaryKind::Neutral, &mut cur, &prev, &vel, &vel, 5_000 * 7);
    for x in 1..n - 1 {
        for y in 1..n - 1 {
            assert_eq!(cur[cell(n, x, y)], prev[cell(n, x, y)]);
        }
    }
}

#[test]
fn advection_transports_by_one_cell() {
    // A uniform unit velocity to the right with dt0 of one cell: every
    // interior cell (except the column next to the wall) takes the value
    // one cell to its left.
    let n: usize = 10;
    let prev: Vec<i64> = (0..(n * n) as i64).map(|c| c * 11_000 % 800_000).collect();
    let velx: Vec<i64> = vec![SCALE; n * n];
    let vely: Vec<i64> = vec![0; n * n];
    let mut cur: Vec<i64> = vec![0; n * n];
    advect(n, BoundaryKind::Neutral, &mut cur, &prev, &velx, &vely, SCALE as i128);
    for x in 2..n - 1 {
        for y in 1..n - 1 {
            assert_eq!(cur[cell(n, x, y)], prev[cell(n, x - 1, y)]);
        }
    }
}

fn divergence_magnitude(n: usize, vx: &[i64], vy: &[i64]) -> i128 {
    let mut worst: i128 = 0;
    for i in 1..n - 1 {
        for j in 1..n - 1 {
            let d = tdiv_ref(
                -(vx[cell(n, i + 1, j)] as i128 - vx[cell(n, i - 1, j)] as i128
                    + vy[cell(n, i, j + 1)] as i128
                    - vy[cell(n, i, j - 1)] as i128),
                2 * (n as i128 - 2),
            );
            worst = worst.max(d.abs());
        }
    }
    worst
}

#[test]
fn projection_reduces_divergence() {
    // A 20x20 interior with a radial outflow from a gaussian bump at the
    // centre, magnitude about 0.1: a strongly divergent field. After one
    // projection the central-difference divergence at every interior cell
    // is below 1e-3 (1000 fixed-point units) and well below what it was.
    let n: usize = 22;
    let mut vx: Vec<i64> = vec![0; n * n];
    let mut vy: Vec<i64> = vec![0; n * n];
    for i in 1..n - 1 {
        for j in 1..n - 1 {
            let dx = i as f64 - 10.5;
            let dy = j as f64 - 10.5;
            let bump = (-(dx * dx + dy * dy) / 8.0).exp();
            vx[cell(n, i, j)] = (0.1 * dx / 3.0 * bump * SCALE as f64) as i64;
            vy[cell(n, i, j)] = (0.1 * dy / 3.0 * bump * SCALE as f64) as i64;
        }
    }
    let before = divergence_magnitude(n, &vx, &vy);
    assert!(before > 2_000, "the starting field should be visibly divergent, got {before}");
    let mut p: Vec<i64> = vec![0; n * n];
    let mut div: Vec<i64> = vec![0; n * n];
    project(n, &mut vx, &mut vy, &mut p, &mut div);
    let after = divergence_magnitude(n, &vx, &vy);
    assert!(after < 1_000, "divergence after projection was {after} (before {before})");
    assert!(after * 2 < before, "projection should clearly reduce divergence");
}

#[test]
fn end_to_end_scenario() {
    // Grid of side 10, one unit of dye at the centre, one tick with
    // speed 0.005, viscosity 0.0005 and diffusion 0. A zero diffusion
    // coefficient makes the diffusion pass an exact identity and the
    // velocity field is zero, so advection is one too: only dissipation
    // acts, and the centre decays below 1.0 while staying positive.
    let mut sim = Simulation::new(5_000, 500, 0, 10).unwrap();
    sim.add_density(5, 5, SCALE);
    sim.step();
    let c = ix(5, 5, 10);
    let centre = sim.density()[c];
    assert!(centre < SCALE);
    assert!(centre > 0);
    assert_eq!(centre, SCALE - DISPERSION_DEFAULT);
    // With no diffusion and no velocity nothing leaves the centre cell.
    for (x, y) in [(4, 5), (6, 5), (5, 4), (5, 6)] {
        assert_eq!(sim.density()[ix(x, y, 10)], 0);
    }
}

#[test]
fn end_to_end_with_diffusion() {
    // The same scenario with a positive diffusion coefficient: dye spreads,
    // so each of the centre's four neighbours ends up strictly between zero
    // and the centre's value, and the centre drops below 1.0.
    let mut sim = Simulation::new(5_000, 500, 500, 10).unwrap();
    sim.add_density(5, 5, SCALE);
    sim.step();
    let centre = sim.density()[ix(5, 5, 10)];
    assert!(centre < SCALE);
    assert!(centre > 0);
    for (x, y) in [(4, 5), (6, 5), (5, 4), (5, 6)] {
        let v = sim.density()[ix(x, y, 10)];
        assert!(v > 0, "neighbour ({x},{y}) got no dye: {v}");
        assert!(v < centre, "neighbour ({x},{y}) holds {v}, centre {centre}");
    }
}
