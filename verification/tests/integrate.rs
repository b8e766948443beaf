//! Integrator behaviour: the speed bound, the deadband, and exact
//! fixed-point arithmetic of the scaling helpers.

use flock_core::config::BoidConfig;
use flock_core::integrate::{bound_vector, integrate_velocity};
use flock_core::math::isqrt;
use flock_core::vec3::{Vec3I, scale_to};

fn speed_of(v: &Vec3I) -> u64 {
    let x = v.x as i128;
    let y = v.y as i128;
    let z = v.z as i128;
    isqrt((x * x + y * y + z * z) as u128)
}

fn cfg_1000_3000() -> BoidConfig {
    let mut c = BoidConfig::default();
    c.min_speed = 1000;
    c.max_speed = 3000;
    c
}

#[test]
fn isqrt_exact_values() {
    assert_eq!(isqrt(0), 0);
    assert_eq!(isqrt(15), 3);
    assert_eq!(isqrt(16), 4);
    assert_eq!(isqrt(998787), 999);
}

#[test]
fn scale_to_classic_triangle() {
    // (3, 4, 0) has length 5; rescaled to 10 it is exactly (6, 8, 0).
    let v = Vec3I::new(3, 4, 0);
    assert_eq!(scale_to(&v, 10), Vec3I::new(6, 8, 0));
}

#[test]
fn slow_velocity_is_raised_to_min_speed() {
    let r = bound_vector(&Vec3I::new(100, 0, 0), 1000, 3000);
    assert_eq!(r, Vec3I::new(1000, 0, 0));
    assert_eq!(speed_of(&r), 1000);
}

#[test]
fn fast_velocity_is_clamped_to_max_speed() {
    let r = bound_vector(&Vec3I::new(5000, 0, 0), 1000, 3000);
    assert_eq!(r, Vec3I::new(3000, 0, 0));
    let r = bound_vector(&Vec3I::new(3000, 3000, 0), 1000, 3000);
    assert_eq!(r, Vec3I::new(2121, 2121, 0));
    assert!(speed_of(&r) <= 3000);
}

#[test]
fn deadband_velocity_is_untouched() {
    let v = Vec3I::new(1517, -802, 33);
    let r = bound_vector(&v, 1000, 3000);
    assert_eq!(r, v);
}

#[test]
fn zero_velocity_stays_zero() {
    // The zero vector has no direction to scale along, so the lower
    // speed bound cannot apply to it.
    let r = bound_vector(&Vec3I::new(0, 0, 0), 1000, 3000);
    assert_eq!(r, Vec3I::new(0, 0, 0));
}

#[test]
fn equal_min_max_bounds_within_rounding_slack() {
    // With min == max an exact magnitude is unreachable on the integer
    // grid; the bound lands within the documented slack, never above max.
    let r = bound_vector(&Vec3I::new(1, 1, 1), 1000, 1000);
    assert_eq!(r, Vec3I::new(577, 577, 577));
    let s = speed_of(&r);
    assert!(s <= 1000);
    assert!(s + 8 >= 1000);
}

#[test]
fn integration_adds_force_times_dt() {
    let cfg = cfg_1000_3000();
    // One full second: velocity 1000 + force 200 lands in the deadband.
    let r = integrate_velocity(
        &Vec3I::new(1000, 0, 0),
        &Vec3I::new(200, 0, 0),
        1000,
        &cfg,
    );
    assert_eq!(r, Vec3I::new(1200, 0, 0));
}

#[test]
fn integration_scales_force_by_milliseconds() {
    let cfg = cfg_1000_3000();
    // 250 ms: a quarter of the force, rounded toward zero.
    let r = integrate_velocity(
        &Vec3I::new(1000, 0, 0),
        &Vec3I::new(202, 0, 0),
        250,
        &cfg,
    );
    assert_eq!(r, Vec3I::new(1050, 0, 0));
}

#[test]
fn integration_respects_speed_bounds() {
    let cfg = cfg_1000_3000();
    // A huge force is clamped back to max_speed.
    let r = integrate_velocity(
        &Vec3I::new(2000, 0, 0),
        &Vec3I::new(1000000, 0, 0),
        1000,
        &cfg,
    );
    assert_eq!(speed_of(&r), 3000);
    // A force cancelling most of the velocity pulls it up to min_speed.
    let r = integrate_velocity(
        &Vec3I::new(2000, 0, 0),
        &Vec3I::new(-1900, 0, 0),
        1000,
        &cfg,
    );
    assert_eq!(r, Vec3I::new(1000, 0, 0));
}

#[test]
fn tiny_force_inside_deadband_has_no_effect() {
    let cfg = cfg_1000_3000();
    // 1 unit of force over 100 ms truncates to zero displacement: the
    // deadband deliberately leaves mid-range speeds unmodified.
    let r = integrate_velocity(&Vec3I::new(1500, 0, 0), &Vec3I::new(1, 0, 0), 100, &cfg);
    assert_eq!(r, Vec3I::new(1500, 0, 0));
}
