//! Whole-tick behaviour: the step pipeline, its determinism, and the
//! configuration boundary.

use flock_core::agent::{Boid, Flock, Role, Velocity};
use flock_core::config::BoidConfig;
use flock_core::grid::BoidMap;
use flock_core::sim::step;
use flock_core::agent::boid_within_limits;
use flock_core::vec3::Vec3I;
use flock_core::{COS_ONE, COORD_LIMIT};

fn school(n: u64) -> Vec<Boid> {
    let mut agents = Vec::new();
    for i in 0..n {
        let s = i as i64;
        agents.push(Boid {
            id: i,
            position: Vec3I::new(s * 700 - 2000, (s % 3) * 400, s * 130),
            velocity: Vec3I::new(1000 + s * 10, 100 - s * 7, 50),
            flock: Flock { identity: i % 2, centre: Vec3I::new(0, 0, 0) },
            role: if i == 0 { Role::Predator } else { Role::Prey },
        });
    }
    agents
}

#[test]
fn step_returns_one_velocity_per_agent() {
    let cfg = BoidConfig::default();
    let agents = school(9);
    let mut map = BoidMap::new();
    let out = step(&mut map, &agents, &cfg, 16);
    assert_eq!(out.len(), 9);
    for (i, (id, _)) in out.iter().enumerate() {
        assert_eq!(*id, i as u64);
    }
}

#[test]
fn step_keeps_every_speed_within_bounds() {
    let cfg = BoidConfig::default();
    let agents = school(12);
    let mut map = BoidMap::new();
    let out = step(&mut map, &agents, &cfg, 16);
    for (_, v) in out.iter() {
        let x = v.value.x as i128;
        let y = v.value.y as i128;
        let z = v.value.z as i128;
        let m2 = (x * x + y * y + z * z) as u128;
        let max = cfg.max_speed as u128;
        assert!(m2 <= max * max + 2 * max);
    }
}

#[test]
fn identical_snapshots_give_identical_velocities() {
    // Two independent evaluations of the same snapshot, configuration
    // and tick length, with separate grids, agree on every agent.
    let cfg = BoidConfig::default();
    let agents = school(15);
    let mut map1 = BoidMap::new();
    let mut map2 = BoidMap::new();
    let out1 = step(&mut map1, &agents, &cfg, 16);
    let out2 = step(&mut map2, &agents, &cfg, 16);
    assert_eq!(out1, out2);
}

#[test]
fn velocity_wrapper_carries_its_vector() {
    let v = Velocity::new(Vec3I::new(1, -2, 3));
    assert_eq!(v.value, Vec3I::new(1, -2, 3));
}

#[test]
fn clamped_config_corrects_out_of_range_values() {
    // A maximum speed below the minimum is raised to it; negative
    // ranges and strengths become zero; the view cosine is clamped into
    // [-COS_ONE, COS_ONE]; nothing invalid reaches the numeric core.
    let c = BoidConfig::clamped(
        500, 100, 3 * COS_ONE, -7, -1, 200, 300, 400, 500, -9, 600, 700,
    );
    assert_eq!(c.min_speed, 500);
    assert_eq!(c.max_speed, 500);
    assert_eq!(c.view_cos, COS_ONE);
    assert_eq!(c.separation_strength, 0);
    assert_eq!(c.separation_range, 0);
    assert_eq!(c.flock_centre_strength, 0);
    assert!(c.is_valid());
}

#[test]
fn clamped_config_keeps_valid_values() {
    let d = BoidConfig::default();
    let c = BoidConfig::clamped(
        d.min_speed,
        d.max_speed,
        d.view_cos,
        d.separation_strength,
        d.separation_range,
        d.alignment_strength,
        d.alignment_range,
        d.cohesion_strength,
        d.cohesion_range,
        d.flock_centre_strength,
        d.predator_strength,
        d.predator_avoidance_strength,
    );
    assert_eq!(c, d);
}

#[test]
fn default_config_is_valid() {
    let c = BoidConfig::default();
    assert!(c.is_valid());
    assert_eq!(c.min_speed, 1000);
    assert_eq!(c.max_speed, 3000);
    assert_eq!(c.view_cos, -8192);
    assert!(c.min_speed <= c.max_speed && c.max_speed <= COORD_LIMIT);
}

#[test]
fn oversized_coordinates_fail_the_runtime_check() {
    let good = school(1).remove(0);
    assert!(boid_within_limits(&good));
    let mut bad = good;
    bad.position = Vec3I::new(COORD_LIMIT + 1, 0, 0);
    assert!(!boid_within_limits(&bad));
}
