//! Tunable simulation parameters, with the validity invariant the numeric
//! core relies on and a clamping constructor that enforces it at the
//! boundary where external code supplies values.

use vstd::prelude::*;
use crate::{COORD_LIMIT, COS_ONE};

verus! {

/// Tunable parameters of the flocking rules.  All lengths and speeds are
/// fixed-point world units; `view_cos` is the cosine of the view-cone
/// half-angle, scaled so that `COS_ONE` stands for `1.0` (so `-COS_ONE`,
/// the cosine of `pi`, means an omnidirectional view).
#[derive(Clone, Copy, PartialEq, Eq, Structural, Debug)]
pub struct BoidConfig {
    pub min_speed: i64,
    pub max_speed: i64,
    /// Cosine of the view angle, in `[-COS_ONE, COS_ONE]`.
    pub view_cos: i64,
    pub separation_strength: i64,
    pub separation_range: i64,
    pub alignment_strength: i64,
    pub alignment_range: i64,
    pub cohesion_strength: i64,
    pub cohesion_range: i64,
    pub flock_centre_strength: i64,
    pub predator_strength: i64,
    pub predator_avoidance_strength: i64,
}

/// `v` clamped into `[lo, hi]`.
pub open spec fn clamp_spec(v: int, lo: int, hi: int) -> int {
    if v < lo {
        lo
    } else if v > hi {
        hi
    } else {
        v
    }
}

/// Clamps a raw value into `[lo, hi]`.
pub fn clamp64(v: i64, lo: i64, hi: i64) -> (r: i64)
    requires
        lo <= hi,
    ensures
        r as int == clamp_spec(v as int, lo as int, hi as int),
{
    if v < lo {
        lo
    } else if v > hi {
        hi
    } else {
        v
    }
}

impl BoidConfig {
    /// The invariant the numeric core requires: speeds ordered and
    /// non-negative, ranges and strengths non-negative, every magnitude
    /// within the fixed-point world bounds, and the view cosine within
    /// `[-COS_ONE, COS_ONE]`.
    pub open spec fn valid(self) -> bool {
        &&& 0 <= self.min_speed <= self.max_speed <= COORD_LIMIT
        &&& -COS_ONE <= self.view_cos <= COS_ONE
        &&& 0 <= self.separation_strength <= COORD_LIMIT
        &&& 0 <= self.separation_range <= COORD_LIMIT
        &&& 0 <= self.alignment_strength <= COORD_LIMIT
        &&& 0 <= self.alignment_range <= COORD_LIMIT
        &&& 0 <= self.cohesion_strength <= COORD_LIMIT
        &&& 0 <= self.cohesion_range <= COORD_LIMIT
        &&& 0 <= self.flock_centre_strength <= COORD_LIMIT
        &&& 0 <= self.predator_strength <= COORD_LIMIT
        &&& 0 <= self.predator_avoidance_strength <= COORD_LIMIT
    }

    /// Runtime check of `valid`, for callers that must establish it.
    pub fn is_valid(&self) -> (r: bool)
        ensures
            r == self.valid(),
    {
        0 <= self.min_speed && self.min_speed <= self.max_speed && self.max_speed <= COORD_LIMIT
            && -COS_ONE <= self.view_cos && self.view_cos <= COS_ONE
            && 0 <= self.separation_strength && self.separation_strength <= COORD_LIMIT
            && 0 <= self.separation_range && self.separation_range <= COORD_LIMIT
            && 0 <= self.alignment_strength && self.alignment_strength <= COORD_LIMIT
            && 0 <= self.alignment_range && self.alignment_range <= COORD_LIMIT
            && 0 <= self.cohesion_strength && self.cohesion_strength <= COORD_LIMIT
            && 0 <= self.cohesion_range && self.cohesion_range <= COORD_LIMIT
            && 0 <= self.flock_centre_strength && self.flock_centre_strength <= COORD_LIMIT
            && 0 <= self.predator_strength && self.predator_strength <= COORD_LIMIT
            && 0 <= self.predator_avoidance_strength && self.predator_avoidance_strength
            <= COORD_LIMIT
    }

    /// Builds a valid configuration from raw values by clamping each one
    /// into its legal interval; a maximum speed below the (clamped)
    /// minimum speed is raised to it.  Out-of-range inputs are thus
    /// corrected at this boundary and never reach the numeric core.
    pub fn clamped(
        min_speed: i64,
        max_speed: i64,
        view_cos: i64,
        separation_strength: i64,
        separation_range: i64,
        alignment_strength: i64,
        alignment_range: i64,
        cohesion_strength: i64,
        cohesion_range: i64,
        flock_centre_strength: i64,
        predator_strength: i64,
        predator_avoidance_strength: i64,
    ) -> (c: BoidConfig)
        ensures
            c.valid(),
            c.min_speed as int == clamp_spec(min_speed as int, 0, COORD_LIMIT as int),
            c.max_speed as int == clamp_spec(max_speed as int, c.min_speed as int, COORD_LIMIT as int),
            c.view_cos as int == clamp_spec(view_cos as int, -COS_ONE as int, COS_ONE as int),
            c.separation_strength as int == clamp_spec(separation_strength as int, 0, COORD_LIMIT as int),
            c.separation_range as int == clamp_spec(separation_range as int, 0, COORD_LIMIT as int),
            c.alignment_strength as int == clamp_spec(alignment_strength as int, 0, COORD_LIMIT as int),
            c.alignment_range as int == clamp_spec(alignment_range as int, 0, COORD_LIMIT as int),
            c.cohesion_strength as int == clamp_spec(cohesion_strength as int, 0, COORD_LIMIT as int),
            c.cohesion_range as int == clamp_spec(cohesion_range as int, 0, COORD_LIMIT as int),
            c.flock_centre_strength as int == clamp_spec(flock_centre_strength as int, 0, COORD_LIMIT as int),
            c.predator_strength as int == clamp_spec(predator_strength as int, 0, COORD_LIMIT as int),
            c.predator_avoidance_strength as int == clamp_spec(predator_avoidance_strength as int, 0, COORD_LIMIT as int),
    {
        let min = clamp64(min_speed, 0, COORD_LIMIT);
        BoidConfig {
            min_speed: min,
            max_speed: clamp64(max_speed, min, COORD_LIMIT),
            view_cos: clamp64(view_cos, -COS_ONE, COS_ONE),
            separation_strength: clamp64(separation_strength, 0, COORD_LIMIT),
            separation_range: clamp64(separation_range, 0, COORD_LIMIT),
            alignment_strength: clamp64(alignment_strength, 0, COORD_LIMIT),
            alignment_range: clamp64(alignment_range, 0, COORD_LIMIT),
            cohesion_strength: clamp64(cohesion_strength, 0, COORD_LIMIT),
            cohesion_range: clamp64(cohesion_range, 0, COORD_LIMIT),
            flock_centre_strength: clamp64(flock_centre_strength, 0, COORD_LIMIT),
            predator_strength: clamp64(predator_strength, 0, COORD_LIMIT),
            predator_avoidance_strength: clamp64(predator_avoidance_strength, 0, COORD_LIMIT),
        }
    }
}

impl Default for BoidConfig {
    /// The conventional tuning, at 100 fixed-point units per world unit:
    /// speeds 10 to 30, a 120-degree view cone (cosine -0.5), the three
    /// steering rules at strength 5 with ranges 50, 75 and 100, a gentle
    /// flock-centre pull and a strong predator drive.
    fn default() -> (c: BoidConfig)
        ensures
            c.valid(),
            c.min_speed == 1000,
            c.max_speed == 3000,
            c.view_cos == -8192,
            c.separation_strength == 500,
            c.separation_range == 5000,
            c.alignment_strength == 500,
            c.alignment_range == 7500,
            c.cohesion_strength == 500,
            c.cohesion_range == 10000,
            c.flock_centre_strength == 200,
            c.predator_strength == 3000,
            c.predator_avoidance_strength == 500,
    {
        BoidConfig {
            min_speed: 1000,
            max_speed: 3000,
            view_cos: -8192,
            separation_strength: 500,
            separation_range: 5000,
            alignment_strength: 500,
            alignment_range: 7500,
            cohesion_strength: 500,
            cohesion_range: 10000,
            flock_centre_strength: 200,
            predator_strength: 3000,
            predator_avoidance_strength: 500,
        }
    }
}

} // verus!
