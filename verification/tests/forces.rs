//! Force-model behaviour: the view cone at its boundary, flock
//! isolation, the doubled nearest-neighbour separation, and the
//! predator/prey rule.  Coordinates are fixed-point, 100 units per world
//! unit; cosines are scaled by `COS_ONE`.

use flock_core::agent::{Boid, Flock, Role};
use flock_core::config::BoidConfig;
use flock_core::forces::{build_index, compute_agent_force, in_view_cone, predator_prey_forces};
use flock_core::grid::BoidMap;
use flock_core::sim::update_boid_map;
use flock_core::vec3::Vec3I;
use flock_core::COS_ONE;

fn prey(id: u64, flock_id: u64, pos: Vec3I, vel: Vec3I) -> Boid {
    Boid {
        id,
        position: pos,
        velocity: vel,
        flock: Flock { identity: flock_id, centre: pos },
        role: Role::Prey,
    }
}

fn config_omni() -> BoidConfig {
    // An omnidirectional view (cosine of pi) with the ranges of the
    // scenario below; the flock centre is made irrelevant.
    BoidConfig {
        min_speed: 0,
        max_speed: 4000,
        view_cos: -COS_ONE,
        separation_strength: 200,
        separation_range: 5000,
        alignment_strength: 100,
        alignment_range: 5000,
        cohesion_strength: 100,
        cohesion_range: 5000,
        flock_centre_strength: 0,
        predator_strength: 3000,
        predator_avoidance_strength: 500,
    }
}

#[test]
fn view_cone_retains_exact_boundary() {
    // A 90-degree half-angle: a neighbour exactly abeam is retained...
    let vel = Vec3I::new(1000, 0, 0);
    assert!(in_view_cone(&vel, &Vec3I::new(0, 500, 0), 0));
    // ...one the least bit behind is excluded.
    assert!(!in_view_cone(&vel, &Vec3I::new(-1, 500, 0), 0));
    // One straight ahead is retained.
    assert!(in_view_cone(&vel, &Vec3I::new(700, 0, 0), 0));
}

#[test]
fn view_cone_zero_angle_keeps_only_straight_ahead() {
    let vel = Vec3I::new(1000, 0, 0);
    // Cosine COS_ONE means an angle of zero: only collinear offsets pass.
    assert!(in_view_cone(&vel, &Vec3I::new(250, 0, 0), COS_ONE));
    assert!(!in_view_cone(&vel, &Vec3I::new(250, 1, 0), COS_ONE));
}

#[test]
fn view_cone_full_angle_keeps_everything() {
    let vel = Vec3I::new(1000, 0, 0);
    assert!(in_view_cone(&vel, &Vec3I::new(-900, 10, -4), -COS_ONE));
}

#[test]
fn view_cone_zero_velocity_is_omnidirectional() {
    let vel = Vec3I::new(0, 0, 0);
    assert!(in_view_cone(&vel, &Vec3I::new(-900, 10, -4), COS_ONE));
}

#[test]
fn different_flocks_neither_align_nor_cohere() {
    // B is within alignment/cohesion range of A but outside the
    // separation range, and belongs to another flock: A feels nothing.
    let mut cfg = config_omni();
    cfg.separation_range = 500;
    let a = prey(1, 0, Vec3I::new(0, 0, 0), Vec3I::new(1000, 0, 0));
    let b = prey(2, 1, Vec3I::new(1000, 0, 0), Vec3I::new(1000, 0, 0));
    let agents = vec![a, b];
    let lookup = build_index(&agents);
    let cands = vec![1u64, 2u64];
    let f = compute_agent_force(&agents, 0, &cands, &lookup, &cfg);
    assert_eq!(f, Vec3I::new(0, 0, 0));
}

#[test]
fn same_flock_aligns_and_coheres() {
    let mut cfg = config_omni();
    cfg.separation_range = 500;
    let a = prey(1, 0, Vec3I::new(0, 0, 0), Vec3I::new(1000, 0, 0));
    let b = prey(2, 0, Vec3I::new(1000, 0, 0), Vec3I::new(1000, 0, 0));
    let agents = vec![a, b];
    let lookup = build_index(&agents);
    let cands = vec![1u64, 2u64];
    let f = compute_agent_force(&agents, 0, &cands, &lookup, &cfg);
    // Alignment (+X, strength 100) plus cohesion toward B (+X, 100).
    assert_eq!(f, Vec3I::new(200, 0, 0));
}

#[test]
fn closest_neighbour_weighs_separation_twice() {
    // The scenario: A at the origin facing +X, B ten world units along
    // +X also facing +X, omnidirectional view, all ranges 50, separation
    // strength 2, alignment and cohesion strength 1.  Separation (doubled
    // through the closest-neighbour term) outweighs alignment plus
    // cohesion, so A is pushed along -X and B along +X, mirrored.
    let cfg = config_omni();
    let a = prey(1, 0, Vec3I::new(0, 0, 0), Vec3I::new(1000, 0, 0));
    let b = prey(2, 0, Vec3I::new(1000, 0, 0), Vec3I::new(1000, 0, 0));
    let agents = vec![a, b];
    let lookup = build_index(&agents);
    let cands = vec![1u64, 2u64];
    let fa = compute_agent_force(&agents, 0, &cands, &lookup, &cfg);
    let fb = compute_agent_force(&agents, 1, &cands, &lookup, &cfg);
    // A: -200 (separation) + 100 (alignment) + 100 (cohesion) - 200
    // (closest neighbour again): a net push away from B.
    assert_eq!(fa, Vec3I::new(-200, 0, 0));
    // B: +200 + 100 - 100 + 200; its cohesion points back at A while
    // alignment still points along +X, so the bias is larger but mirrors
    // A's in sign.
    assert_eq!(fb, Vec3I::new(400, 0, 0));
    assert!(fa.x < 0 && fb.x > 0);
}

#[test]
fn predator_steers_toward_nearest_prey() {
    // Three prey at world distances 10, 10.5 and 9.9 from the predator:
    // the chase force points at the one at 9.9, the true minimum.
    let cfg = config_omni();
    let mut agents = vec![
        prey(1, 0, Vec3I::new(1000, 0, 0), Vec3I::new(100, 0, 0)),
        prey(2, 0, Vec3I::new(1050, 0, 0), Vec3I::new(100, 0, 0)),
        prey(3, 0, Vec3I::new(990, 0, 0), Vec3I::new(100, 0, 0)),
    ];
    agents.push(Boid {
        id: 4,
        position: Vec3I::new(0, 0, 0),
        velocity: Vec3I::new(100, 0, 0),
        flock: Flock { identity: 1, centre: Vec3I::new(0, 0, 0) },
        role: Role::Predator,
    });
    let mut map = BoidMap::new();
    update_boid_map(&mut map, &agents, &cfg);
    let lookup = build_index(&agents);
    let mut forces = vec![Vec3I::new(0, 0, 0); 4];
    predator_prey_forces(&agents, &map, &lookup, &cfg, &mut forces);
    // The chase vector (990, 0, 0) rescaled to predator_strength 3000.
    assert_eq!(forces[3], Vec3I::new(3000, 0, 0));
    // Every prey is pushed away from the predator (+X here).
    assert_eq!(forces[0], Vec3I::new(500, 0, 0));
    assert_eq!(forces[1], Vec3I::new(500, 0, 0));
    assert_eq!(forces[2], Vec3I::new(500, 0, 0));
}

#[test]
fn missing_candidate_identities_are_skipped() {
    // A candidate list may name an agent that vanished between the grid
    // build and the force read: it is skipped, not an error.
    let cfg = config_omni();
    let a = prey(1, 0, Vec3I::new(0, 0, 0), Vec3I::new(1000, 0, 0));
    let agents = vec![a];
    let lookup = build_index(&agents);
    let cands = vec![1u64, 99u64];
    let f = compute_agent_force(&agents, 0, &cands, &lookup, &cfg);
    assert_eq!(f, Vec3I::new(0, 0, 0));
}
