//! Unit tests for the solver's bookkeeping, and reference-parity checks of
//! the diffusion pass against an independent computation of the same
//! formulas, written out plainly in this file.

use fluid_engine::{BoundaryKind, SCALE, Simulation, VMAX, diffuse, ix};

#[test]
fn construction_rejects_small_grids() {
    assert!(Simulation::new(5_000, 500, 0, 0).is_none());
    assert!(Simulation::new(5_000, 500, 0, 2).is_none());
    assert!(Simulation::new(5_000, 500, 0, 3).is_some());
}

#[test]
fn construction_zeroes_every_field() {
    let sim = Simulation::new(5_000, 500, 100, 12).unwrap();
    assert_eq!(sim.size(), 12);
    assert_eq!(sim.density().len(), 144);
    assert_eq!(sim.vel_x().len(), 144);
    assert_eq!(sim.vel_y().len(), 144);
    for c in 0..144 {
        assert_eq!(sim.density()[c], 0);
        assert_eq!(sim.vel_x()[c], 0);
        assert_eq!(sim.vel_y()[c], 0);
    }
}

#[test]
fn index_formula_is_row_major() {
    let sim = Simulation::new(0, 0, 0, 10).unwrap();
    assert_eq!(ix(3, 2, 10), 23);
    assert_eq!(sim.ix(3, 2), 23);
    assert_eq!(sim.ix(0, 0), 0);
    assert_eq!(sim.ix(9, 9), 99);
}

#[test]
fn add_density_accumulates() {
    let mut sim = Simulation::new(5_000, 500, 0, 10).unwrap();
    sim.add_density(5, 5, 250);
    sim.add_density(5, 5, 750);
    assert_eq!(sim.density()[sim.ix(5, 5) as usize], 1_000);
    assert_eq!(sim.density()[sim.ix(4, 5) as usize], 0);
}

#[test]
fn add_velocity_accumulates() {
    let mut sim = Simulation::new(5_000, 500, 0, 10).unwrap();
    sim.add_velocity(4, 6, 300, -100);
    sim.add_velocity(4, 6, -50, -100);
    let c = sim.ix(4, 6) as usize;
    assert_eq!(sim.vel_x()[c], 250);
    assert_eq!(sim.vel_y()[c], -200);
}

#[test]
fn add_density_saturates_at_the_stored_range() {
    let mut sim = Simulation::new(5_000, 500, 0, 10).unwrap();
    sim.add_density(5, 5, VMAX);
    sim.add_density(5, 5, VMAX);
    assert_eq!(sim.density()[sim.ix(5, 5) as usize], VMAX);
}

fn tdiv_ref(num: i128, den: i128) -> i128 {
    if num >= 0 { num / den } else { -((-num) / den) }
}

fn sat_ref(v: i128) -> i64 {
    if v > VMAX as i128 {
        VMAX
    } else if v < -(VMAX as i128) {
        -VMAX
    } else {
        v as i64
    }
}

fn cell(n: usize, x: usize, y: usize) -> usize {
    x + y * n
}

fn ref_set_bnd(n: usize, b: u32, cur: &mut [i64]) {
    for i in 1..n - 1 {
        cur[cell(n, i, 0)] = if b == 2 { -cur[cell(n, i, 1)] } else { cur[cell(n, i, 1)] };
        cur[cell(n, i, n - 1)] =
            if b == 2 { -cur[cell(n, i, n - 2)] } else { cur[cell(n, i, n - 2)] };
    }
    for i in 1..n - 1 {
        cur[cell(n, 0, i)] = if b == 1 { -cur[cell(n, 1, i)] } else { cur[cell(n, 1, i)] };
        cur[cell(n, n - 1, i)] =
            if b == 1 { -cur[cell(n, n - 2, i)] } else { cur[cell(n, n - 2, i)] };
    }
    let avg = |a: i64, b: i64| tdiv_ref(a as i128 + b as i128, 2) as i64;
    cur[cell(n, 0, 0)] = avg(cur[cell(n, 1, 0)], cur[cell(n, 0, 1)]);
    cur[cell(n, 0, n - 1)] = avg(cur[cell(n, 1, n - 1)], cur[cell(n, 0, n - 2)]);
    cur[cell(n, n - 1, 0)] = avg(cur[cell(n, n - 2, 0)], cur[cell(n, n - 1, 1)]);
    cur[cell(n, n - 1, n - 1)] = avg(cur[cell(n, n - 2, n - 1)], cur[cell(n, n - 1, n - 2)]);
}

fn ref_diffuse(n: usize, b: u32, cur: &mut [i64], prev: &[i64], rate: i64, speed: i64) {
    let af = tdiv_ref(
        speed as i128 * rate as i128 * ((n - 2) * (n - 2)) as i128,
        SCALE as i128,
    );
    let den = SCALE as i128 + 4 * af;
    for _ in 0..20 {
        for x in 1..n - 1 {
            for y in 1..n - 1 {
                let nsum = cur[cell(n, x - 1, y)] as i128 + cur[cell(n, x + 1, y)] as i128
                    + cur[cell(n, x, y - 1)] as i128 + cur[cell(n, x, y + 1)] as i128;
                let num = prev[cell(n, x, y)] as i128 * SCALE as i128 + af * nsum;
                cur[cell(n, x, y)] = sat_ref(tdiv_ref(num, den));
            }
        }
        ref_set_bnd(n, b, cur);
    }
}

#[test]
fn diffusion_matches_reference() {
    let n: usize = 9;
    // A simple linear-congruential sequence stands in for arbitrary field
    // content; values stay within about one unit.
    let mut seed: i64 = 41;
    let mut next = move || {
        seed = (seed * 1_103_515_245 + 12_345) % 2_000_001;
        seed - 1_000_000
    };
    let prev: Vec<i64> = (0..n * n).map(|_| next()).collect();
    let start: Vec<i64> = (0..n * n).map(|_| next()).collect();
    for (kind, tag) in [
        (BoundaryKind::Neutral, 0u32),
        (BoundaryKind::ReflectX, 1u32),
        (BoundaryKind::ReflectY, 2u32),
    ] {
        let mut got = start.clone();
        diffuse(n, kind, &mut got, &prev, 70_000, 5_000);
        let mut want = start.clone();
        ref_diffuse(n, tag, &mut want, &prev, 70_000, 5_000);
        assert_eq!(got, want);
    }
}
