//! Spatial-grid behaviour: flooring cells, bucket bookkeeping, and
//! neighbourhood queries.  Coordinates are fixed-point, 100 units per
//! world unit.

use flock_core::grid::BoidMap;
use flock_core::vec3::Vec3I;

fn grid_with_resolution(res: i64) -> BoidMap {
    let mut m = BoidMap::new();
    m.set_resolution(res);
    m
}

#[test]
fn cell_floors_toward_negative_infinity() {
    // World resolution 10 at scale 100: one cell spans 1000 fixed units.
    let m = grid_with_resolution(1000);
    // -0.1 world units lands in cell -1, not cell 0.
    let c = m.vec3_to_grid(Vec3I::new(-10, 0, 0));
    assert_eq!(c, (-1, 0, 0));
    // 0.0 lands in cell 0.
    let c = m.vec3_to_grid(Vec3I::new(0, 0, 0));
    assert_eq!(c, (0, 0, 0));
    // 9.9 still lands in cell 0.
    let c = m.vec3_to_grid(Vec3I::new(990, 0, 0));
    assert_eq!(c, (0, 0, 0));
}

#[test]
fn cell_boundaries_are_exact() {
    let m = grid_with_resolution(1000);
    // An exact negative multiple belongs to its own cell, not one lower.
    assert_eq!(m.vec3_to_grid(Vec3I::new(-1000, 0, 0)), (-1, 0, 0));
    assert_eq!(m.vec3_to_grid(Vec3I::new(-1001, 0, 0)), (-2, 0, 0));
    assert_eq!(m.vec3_to_grid(Vec3I::new(1000, 0, 0)), (1, 0, 0));
    assert_eq!(m.vec3_to_grid(Vec3I::new(999, -1, 2000)), (0, -1, 2));
}

#[test]
fn neighbours_find_agent_within_resolution() {
    let mut m = grid_with_resolution(1000);
    // Two agents 9.9 world units apart, straddling a cell boundary.
    m.add_boid(1, Vec3I::new(-500, 0, 0));
    m.add_boid(2, Vec3I::new(490, 0, 0));
    let near_one = m.get_possible_neighbours(Vec3I::new(-500, 0, 0));
    assert!(near_one.contains(&1));
    assert!(near_one.contains(&2));
    let near_two = m.get_possible_neighbours(Vec3I::new(490, 0, 0));
    assert!(near_two.contains(&1));
    assert!(near_two.contains(&2));
}

#[test]
fn neighbours_span_diagonal_cells() {
    let mut m = grid_with_resolution(1000);
    m.add_boid(7, Vec3I::new(-1, -1, -1));
    // The query position sits in cell (0, 0, 0); the agent in (-1, -1, -1).
    let found = m.get_possible_neighbours(Vec3I::new(1, 1, 1));
    assert!(found.contains(&7));
}

#[test]
fn neighbours_ignore_distant_cells() {
    let mut m = grid_with_resolution(1000);
    m.add_boid(3, Vec3I::new(5000, 0, 0));
    let found = m.get_possible_neighbours(Vec3I::new(0, 0, 0));
    assert!(!found.contains(&3));
}

#[test]
fn reset_empties_every_bucket() {
    let mut m = grid_with_resolution(1000);
    m.add_boid(1, Vec3I::new(0, 0, 0));
    m.add_boid(2, Vec3I::new(10, 0, 0));
    assert_eq!(m.len(), 2);
    m.reset();
    assert_eq!(m.len(), 0);
    assert!(m.get_possible_neighbours(Vec3I::new(0, 0, 0)).is_empty());
}

#[test]
fn default_grid_is_empty() {
    let m = BoidMap::default();
    assert_eq!(m.len(), 0);
    assert_eq!(m.resolution(), 1);
}
