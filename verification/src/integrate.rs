//! The integrator: adds the accumulated force, scaled by the elapsed
//! time, to a velocity, then bounds the resulting speed.  Bounding clamps
//! the magnitude down to `max_speed` when it exceeds it, else up to
//! `min_speed` when it falls short (re-checking the upper bound after an
//! up-scale); magnitudes strictly between the two are deliberately left
//! untouched (the integration deadband).

use vstd::prelude::*;
use crate::math::{
    div_trunc, div_ceil_away, sqrt_floor, lemma_sqrt_floor, lemma_sqrt_floor_at_least,
    lemma_sqrt_floor_below, lemma_div_trunc_close, lemma_div_ceil_close, lemma_sq_le,
};
use crate::vec3::{
    Vec3I, v3_add, v3_mag2, v3_zero, v3_in_bounds, v3_len, v3_scale_to, v3_scale_to_ceil,
    mag2_of, scale_to, scale_to_ceil, lemma_mag2_nonneg, lemma_component_le_len, GEOM_LIMIT,
};
use crate::config::BoidConfig;
use crate::{COORD_LIMIT, FORCE_LIMIT, DT_LIMIT, MILLIS_PER_SECOND};

verus! {

/// The speed-bounded velocity: clamped down to `max` when too fast, up
/// to `min` when too slow (and down again if the integer up-scale
/// overshoots `max`), untouched inside the deadband.  The zero vector
/// stays zero: it has no direction to scale along.
pub open spec fn v3_bound(v: (int, int, int), min: int, max: int) -> (int, int, int) {
    let m2 = v3_mag2(v);
    if m2 > max * max {
        v3_scale_to(v, max)
    } else if m2 < min * min {
        let w = v3_scale_to_ceil(v, min);
        if v3_mag2(w) > max * max {
            v3_scale_to(w, max)
        } else {
            w
        }
    } else {
        v
    }
}

/// The new velocity of one agent: the force scaled by `dt` milliseconds
/// (components rounded toward zero) added to the old velocity, then
/// speed-bounded.
pub open spec fn integrate_spec(
    vel: (int, int, int),
    f: (int, int, int),
    dt: int,
    min: int,
    max: int,
) -> (int, int, int) {
    v3_bound(
        v3_add(
            vel,
            (
                div_trunc(f.0 * dt, MILLIS_PER_SECOND as int),
                div_trunc(f.1 * dt, MILLIS_PER_SECOND as int),
                div_trunc(f.2 * dt, MILLIS_PER_SECOND as int),
            ),
        ),
        min,
        max,
    )
}

/// One component of an up-scale: the square of `ceil(vi * k / m) * m`
/// dominates the square of `vi * k`.
proof fn lemma_ceil_sq_ge(vi: int, k: int, m: int)
    requires
        m >= 1,
        k >= 0,
    ensures
        div_ceil_away(vi * k, m) * div_ceil_away(vi * k, m) * (m * m) >= (vi * vi) * (k * k),
{
    let a = vi * k;
    let w = div_ceil_away(a, m);
    lemma_div_ceil_close(a, m);
    if a >= 0 {
        assert(w * w * (m * m) >= (vi * vi) * (k * k)) by (nonlinear_arith)
            requires
                a == vi * k,
                a >= 0,
                w * m >= a,
                m >= 1,
        ;
    } else {
        assert(w * w * (m * m) >= (vi * vi) * (k * k)) by (nonlinear_arith)
            requires
                a == vi * k,
                a < 0,
                w * m <= a,
                m >= 1,
        ;
    }
}

/// One component of a down-scale: the square of `trunc(vi * k / m) * m`
/// is dominated by the square of `vi * k`.
proof fn lemma_trunc_sq_le(vi: int, k: int, m: int)
    requires
        m >= 1,
        k >= 0,
    ensures
        div_trunc(vi * k, m) * div_trunc(vi * k, m) * (m * m) <= (vi * vi) * (k * k),
{
    let a = vi * k;
    let w = div_trunc(a, m);
    lemma_div_trunc_close(a, m);
    if a >= 0 {
        vstd::arithmetic::div_mod::lemma_div_pos_is_pos(a, m);
        assert(w * m >= 0) by (nonlinear_arith)
            requires
                w >= 0,
                m >= 1,
        ;
        assert(w * w * (m * m) <= (vi * vi) * (k * k)) by (nonlinear_arith)
            requires
                a == vi * k,
                a >= 0,
                0 <= w * m <= a,
                m >= 1,
        ;
    } else {
        vstd::arithmetic::div_mod::lemma_div_pos_is_pos(-a, m);
        assert(w <= 0);
        assert(w * m <= 0) by (nonlinear_arith)
            requires
                w <= 0,
                m >= 1,
        ;
        assert(w * w * (m * m) <= (vi * vi) * (k * k)) by (nonlinear_arith)
            requires
                a == vi * k,
                a < 0,
                0 >= w * m >= a,
                m >= 1,
        ;
    }
}

/// One component of a down-scale loses at most `m` of magnitude:
/// `(trunc(vi * k / m) * m)^2 >= (vi * k)^2 - 2 * m * |vi * k|`.
proof fn lemma_trunc_sq_close(vi: int, k: int, m: int)
    requires
        m >= 1,
        k >= 0,
    ensures
        div_trunc(vi * k, m) * div_trunc(vi * k, m) * (m * m) >= (vi * vi) * (k * k) - 2 * m * (
        if vi * k >= 0 {
            vi * k
        } else {
            -(vi * k)
        }),
{
    let a = vi * k;
    let w = div_trunc(a, m);
    lemma_div_trunc_close(a, m);
    if a >= 0 {
        assert(w * w * (m * m) >= (vi * vi) * (k * k) - 2 * m * a) by (nonlinear_arith)
            requires
                a == vi * k,
                a >= 0,
                w * m <= a,
                (w + 1) * m > a,
                m >= 1,
        ;
    } else {
        assert(w * w * (m * m) >= (vi * vi) * (k * k) - 2 * m * (-a)) by (nonlinear_arith)
            requires
                a == vi * k,
                a < 0,
                w * m >= a,
                (w - 1) * m < a,
                m >= 1,
        ;
    }
}

/// Up-scaling a nonzero vector reaches at least the requested length:
/// the squared magnitude of `v3_scale_to_ceil(v, k)` is at least `k * k`.
pub proof fn lemma_scale_ceil_lower(v: (int, int, int), k: int)
    requires
        v != v3_zero(),
        k >= 0,
    ensures
        v3_mag2(v3_scale_to_ceil(v, k)) >= k * k,
{
    lemma_mag2_nonneg(v);
    let m2 = v3_mag2(v);
    lemma_sqrt_floor(m2 as nat);
    lemma_sqrt_floor_at_least(m2 as nat, 1);
    let m = v3_len(v);
    assert(m >= 1);
    let w = v3_scale_to_ceil(v, k);
    let w0 = div_ceil_away(v.0 * k, m);
    let w1 = div_ceil_away(v.1 * k, m);
    let w2 = div_ceil_away(v.2 * k, m);
    lemma_ceil_sq_ge(v.0, k, m);
    lemma_ceil_sq_ge(v.1, k, m);
    lemma_ceil_sq_ge(v.2, k, m);
    let mw = v3_mag2(w);
    assert(mw * (m * m) == w0 * w0 * (m * m) + w1 * w1 * (m * m) + w2 * w2 * (m * m))
        by (nonlinear_arith)
        requires
            mw == w0 * w0 + w1 * w1 + w2 * w2,
    ;
    assert(m2 * (k * k) == (v.0 * v.0) * (k * k) + (v.1 * v.1) * (k * k) + (v.2 * v.2) * (k * k))
        by (nonlinear_arith)
        requires
            m2 == v.0 * v.0 + v.1 * v.1 + v.2 * v.2,
    ;
    assert(mw * (m * m) >= m2 * (k * k));
    assert(m2 * (k * k) >= (m * m) * (k * k)) by (nonlinear_arith)
        requires
            m2 >= m * m,
            k * k >= 0,
    ;
    assert(mw >= k * k) by (nonlinear_arith)
        requires
            mw * (m * m) >= (m * m) * (k * k),
            m >= 1,
    ;
}

/// Down-scaling an over-long vector lands within the target: the squared
/// magnitude of `v3_scale_to(v, k)` is at most `k * k + 2 * k`, so its
/// integer speed is at most `k`.
pub proof fn lemma_scale_trunc_upper(v: (int, int, int), k: int)
    requires
        v3_mag2(v) > k * k,
        k >= 0,
    ensures
        v3_mag2(v3_scale_to(v, k)) <= k * k + 2 * k,
        v3_len(v3_scale_to(v, k)) <= k,
{
    lemma_mag2_nonneg(v);
    let m2 = v3_mag2(v);
    lemma_sqrt_floor(m2 as nat);
    let m = v3_len(v);
    assert(m >= 1) by {
        lemma_sqrt_floor_at_least(m2 as nat, 1);
    }
    assert(m >= k) by {
        if m < k {
            lemma_sq_le(m + 1, k);
        }
    }
    let w = v3_scale_to(v, k);
    let w0 = div_trunc(v.0 * k, m);
    let w1 = div_trunc(v.1 * k, m);
    let w2 = div_trunc(v.2 * k, m);
    lemma_trunc_sq_le(v.0, k, m);
    lemma_trunc_sq_le(v.1, k, m);
    lemma_trunc_sq_le(v.2, k, m);
    let mw = v3_mag2(w);
    assert(mw * (m * m) == w0 * w0 * (m * m) + w1 * w1 * (m * m) + w2 * w2 * (m * m))
        by (nonlinear_arith)
        requires
            mw == w0 * w0 + w1 * w1 + w2 * w2,
    ;
    assert(m2 * (k * k) == (v.0 * v.0) * (k * k) + (v.1 * v.1) * (k * k) + (v.2 * v.2) * (k * k))
        by (nonlinear_arith)
        requires
            m2 == v.0 * v.0 + v.1 * v.1 + v.2 * v.2,
    ;
    assert(mw * (m * m) <= m2 * (k * k));
    lemma_mag2_nonneg(w);
    assert(mw <= k * k + 2 * k) by (nonlinear_arith)
        requires
            mw * (m * m) <= m2 * (k * k),
            m * m <= m2,
            m2 < (m + 1) * (m + 1),
            1 <= m,
            0 <= k <= m,
            mw >= 0,
    ;
    assert(k * k + 2 * k < (k + 1) * (k + 1)) by (nonlinear_arith);
    lemma_sqrt_floor_below(mw as nat, k as nat);
}

/// Down-scaling an over-long vector keeps nearly the target length: the
/// squared magnitude of `v3_scale_to(v, k)` is at least `k * k - 6 * k`.
pub proof fn lemma_scale_trunc_lower(v: (int, int, int), k: int)
    requires
        v3_mag2(v) > k * k,
        k >= 0,
    ensures
        v3_mag2(v3_scale_to(v, k)) >= k * k - 6 * k,
{
    lemma_mag2_nonneg(v);
    let m2 = v3_mag2(v);
    lemma_sqrt_floor(m2 as nat);
    let m = v3_len(v);
    assert(m >= 1) by {
        lemma_sqrt_floor_at_least(m2 as nat, 1);
    }
    assert(m >= k) by {
        if m < k {
            lemma_sq_le(m + 1, k);
        }
    }
    let w = v3_scale_to(v, k);
    let w0 = div_trunc(v.0 * k, m);
    let w1 = div_trunc(v.1 * k, m);
    let w2 = div_trunc(v.2 * k, m);
    lemma_trunc_sq_close(v.0, k, m);
    lemma_trunc_sq_close(v.1, k, m);
    lemma_trunc_sq_close(v.2, k, m);
    let a0 = if v.0 >= 0 { v.0 } else { -v.0 };
    let a1 = if v.1 >= 0 { v.1 } else { -v.1 };
    let a2 = if v.2 >= 0 { v.2 } else { -v.2 };
    assert((if v.0 * k >= 0 { v.0 * k } else { -(v.0 * k) }) == a0 * k) by (nonlinear_arith)
        requires
            k >= 0,
            a0 == (if v.0 >= 0 { v.0 } else { -v.0 }),
    ;
    assert((if v.1 * k >= 0 { v.1 * k } else { -(v.1 * k) }) == a1 * k) by (nonlinear_arith)
        requires
            k >= 0,
            a1 == (if v.1 >= 0 { v.1 } else { -v.1 }),
    ;
    assert((if v.2 * k >= 0 { v.2 * k } else { -(v.2 * k) }) == a2 * k) by (nonlinear_arith)
        requires
            k >= 0,
            a2 == (if v.2 >= 0 { v.2 } else { -v.2 }),
    ;
    let s = a0 + a1 + a2;
    assert(s * s <= 3 * m2) by (nonlinear_arith)
        requires
            m2 == v.0 * v.0 + v.1 * v.1 + v.2 * v.2,
            a0 == (if v.0 >= 0 { v.0 } else { -v.0 }),
            a1 == (if v.1 >= 0 { v.1 } else { -v.1 }),
            a2 == (if v.2 >= 0 { v.2 } else { -v.2 }),
            s == a0 + a1 + a2,
    ;
    assert((m + 1) * (m + 1) == m * m + 2 * m + 1) by (nonlinear_arith);
    assert(m2 <= m * m + 2 * m);
    assert(s <= 2 * m + 1) by (nonlinear_arith)
        requires
            s * s <= 3 * m2,
            m2 <= m * m + 2 * m,
            s >= 0,
            m >= 1,
    ;
    let mw = v3_mag2(w);
    assert(mw * (m * m) == w0 * w0 * (m * m) + w1 * w1 * (m * m) + w2 * w2 * (m * m))
        by (nonlinear_arith)
        requires
            mw == w0 * w0 + w1 * w1 + w2 * w2,
    ;
    assert(m2 * (k * k) == (v.0 * v.0) * (k * k) + (v.1 * v.1) * (k * k) + (v.2 * v.2) * (k * k))
        by (nonlinear_arith)
        requires
            m2 == v.0 * v.0 + v.1 * v.1 + v.2 * v.2,
    ;
    assert(mw * (m * m) >= m2 * (k * k) - 2 * m * (a0 * k) - 2 * m * (a1 * k) - 2 * m * (a2 * k));
    assert(mw * (m * m) >= m2 * (k * k) - 2 * m * k * s) by (nonlinear_arith)
        requires
            mw * (m * m) >= m2 * (k * k) - 2 * m * (a0 * k) - 2 * m * (a1 * k) - 2 * m * (a2 * k),
            s == a0 + a1 + a2,
    ;
    assert(mw >= k * k - 6 * k) by (nonlinear_arith)
        requires
            mw * (m * m) >= m2 * (k * k) - 2 * m * k * s,
            m2 >= m * m,
            s <= 2 * m + 1,
            m >= 1,
            0 <= k <= m,
    ;
}

/// The speed-bound contract: inputs inside the deadband pass through
/// unchanged; the bounded speed never exceeds `max`; and for a nonzero
/// input it falls short of `min` by at most 8 fixed-point units (the
/// slack integer rounding can cost; an exact lower bound is unreachable
/// on the integer grid, where for instance `(1, 1, 1)` cannot be scaled
/// to a magnitude exactly between `min` and `max` when they are equal).
pub proof fn lemma_bound_props(v: (int, int, int), min: int, max: int)
    requires
        0 <= min <= max,
    ensures
        min * min <= v3_mag2(v) <= max * max ==> v3_bound(v, min, max) == v,
        v3_len(v3_bound(v, min, max)) <= max,
        v != v3_zero() ==> v3_len(v3_bound(v, min, max)) + 8 >= min,
{
    lemma_mag2_nonneg(v);
    let m2 = v3_mag2(v);
    let r = v3_bound(v, min, max);
    assert(min * min <= max * max) by (nonlinear_arith)
        requires
            0 <= min <= max,
    ;
    if m2 > max * max {
        lemma_scale_trunc_upper(v, max);
        lemma_scale_trunc_lower(v, max);
        let mr = v3_mag2(r);
        lemma_mag2_nonneg(r);
        if max >= 8 {
            assert(mr >= (max - 4) * (max - 4)) by (nonlinear_arith)
                requires
                    mr >= max * max - 6 * max,
                    max >= 8,
            ;
            lemma_sqrt_floor_at_least(mr as nat, (max - 4) as nat);
        }
    } else if m2 < min * min {
        if v == v3_zero() {
        } else {
            lemma_scale_ceil_lower(v, min);
            let w = v3_scale_to_ceil(v, min);
            if v3_mag2(w) > max * max {
                lemma_scale_trunc_upper(w, max);
                lemma_scale_trunc_lower(w, max);
                let mr = v3_mag2(r);
                lemma_mag2_nonneg(r);
                if max >= 8 {
                    assert(mr >= (max - 4) * (max - 4)) by (nonlinear_arith)
                        requires
                            mr >= max * max - 6 * max,
                            max >= 8,
                    ;
                    lemma_sqrt_floor_at_least(mr as nat, (max - 4) as nat);
                }
            } else {
                lemma_mag2_nonneg(w);
                assert(max * max < (max + 1) * (max + 1)) by (nonlinear_arith)
                    requires
                        max >= 0,
                ;
                lemma_sqrt_floor_at_least(v3_mag2(w) as nat, min as nat);
                lemma_sqrt_floor_below(v3_mag2(w) as nat, max as nat);
            }
        }
    } else {
        assert(max * max < (max + 1) * (max + 1)) by (nonlinear_arith)
            requires
                max >= 0,
        ;
        lemma_sqrt_floor_below(m2 as nat, max as nat);
        if min * min <= m2 {
            lemma_sqrt_floor_at_least(m2 as nat, min as nat);
        }
    }
}

/// Bounds a velocity's speed into `[min_speed, max_speed]` (up to the
/// rounding slack stated by `lemma_bound_props`).
pub fn bound_vector(v: &Vec3I, min_speed: i64, max_speed: i64) -> (r: Vec3I)
    requires
        0 <= min_speed <= max_speed <= COORD_LIMIT,
        v3_in_bounds(v@, GEOM_LIMIT as int),
    ensures
        r@ == v3_bound(v@, min_speed as int, max_speed as int),
        v3_in_bounds(r@, max_speed as int),
        v3_len(r@) <= max_speed,
        v@ != v3_zero() ==> v3_len(r@) + 8 >= min_speed,
        v@ == v3_zero() ==> r@ == v3_zero(),
        min_speed * min_speed <= v3_mag2(v@) <= max_speed * max_speed ==> r@ == v@,
{
    proof {
        lemma_bound_props(v@, min_speed as int, max_speed as int);
        let mx = max_speed as int;
        let mn = min_speed as int;
        assert(0 <= mx * mx <= 4194304 * 4194304 && 0 <= mn * mn <= 4194304 * 4194304)
            by (nonlinear_arith)
            requires
                0 <= mn <= 4194304,
                0 <= mx <= 4194304,
        ;
    }
    let m2 = mag2_of(v);
    let maxsq = (max_speed as u128) * (max_speed as u128);
    let minsq = (min_speed as u128) * (min_speed as u128);
    if m2 > maxsq {
        scale_to(v, max_speed)
    } else if m2 < minsq {
        let w = scale_to_ceil(v, min_speed);
        let w2 = mag2_of(&w);
        if w2 > maxsq {
            scale_to(&w, max_speed)
        } else {
            w
        }
    } else {
        proof {
            lemma_component_le_len(v@);
            let mx = max_speed as int;
            assert(mx * mx < (mx + 1) * (mx + 1)) by (nonlinear_arith)
                requires
                    mx >= 0,
            ;
            lemma_sqrt_floor_below(v3_mag2(v@) as nat, max_speed as nat);
        }
        *v
    }
}

/// Scales a force component by the tick length in milliseconds and
/// divides by 1000, rounding toward zero.
fn force_times_dt(f: i64, dt_millis: u64) -> (r: i64)
    requires
        -FORCE_LIMIT <= f <= FORCE_LIMIT,
        dt_millis <= DT_LIMIT,
    ensures
        r as int == div_trunc(f as int * dt_millis as int, MILLIS_PER_SECOND as int),
        -2161727821137838080 <= r as int <= 2161727821137838080,
{
    proof {
        let fi = f as int;
        let di = dt_millis as int;
        assert(-(36028797018963968 * 60000) <= fi * di <= 36028797018963968 * 60000)
            by (nonlinear_arith)
            requires
                -36028797018963968 <= fi <= 36028797018963968,
                0 <= di <= 60000,
        ;
    }
    let p: i128 = (f as i128) * (dt_millis as i128);
    let pu: u128 = if p >= 0 {
        p as u128
    } else {
        (-p) as u128
    };
    let q: u128 = pu / 1000;
    proof {
        vstd::arithmetic::div_mod::lemma_div_is_ordered(
            pu as int,
            2161727821137838080000int,
            1000,
        );
        vstd::arithmetic::div_mod::lemma_div_by_multiple(2161727821137838080, 1000);
        assert(q <= 2161727821137838080);
    }
    if p >= 0 {
        q as i64
    } else {
        -(q as i64)
    }
}

/// Integrates one agent's velocity: `bound(vel + force * dt, min, max)`.
pub fn integrate_velocity(vel: &Vec3I, force: &Vec3I, dt_millis: u64, cfg: &BoidConfig) -> (r:
    Vec3I)
    requires
        cfg.valid(),
        v3_in_bounds(vel@, COORD_LIMIT as int),
        v3_in_bounds(force@, FORCE_LIMIT as int),
        dt_millis <= DT_LIMIT,
    ensures
        r@ == integrate_spec(
            vel@,
            force@,
            dt_millis as int,
            cfg.min_speed as int,
            cfg.max_speed as int,
        ),
        v3_in_bounds(r@, cfg.max_speed as int),
        v3_len(r@) <= cfg.max_speed,
        r@ != v3_zero() ==> v3_len(r@) + 8 >= cfg.min_speed,
{
    let dx = force_times_dt(force.x, dt_millis);
    let dy = force_times_dt(force.y, dt_millis);
    let dz = force_times_dt(force.z, dt_millis);
    let moved = Vec3I { x: vel.x + dx, y: vel.y + dy, z: vel.z + dz };
    bound_vector(&moved, cfg.min_speed, cfg.max_speed)
}

} // verus!
