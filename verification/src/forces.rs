//! The steering-force model: view-cone filtering, separation / alignment /
//! cohesion accumulation with per-neighbour normalization, the nearest
//! neighbour's doubled separation influence, flock-centre attraction, and
//! the predator/prey rule.
//!
//! Every executable function is pinned to a specification function of the
//! snapshot alone, so the force phase is a pure function of its inputs.

use vstd::prelude::*;
use std::collections::HashMap;
use crate::math::signed_square;
use crate::vec3::{
    Vec3I, v3_add, v3_sub, v3_dot, v3_mag2, v3_dist2, v3_zero, v3_in_bounds, v3_scale_to,
    v_add, v_sub, mag2_of, dot_of, dist2_of, scale_to,
};
use crate::agent::{Boid, Role, boids_ok, agent_index, lemma_agent_index, lemma_agent_index_of, distinct_ids};
use crate::config::BoidConfig;
use crate::grid::{BoidMap, cell3, no_dups};
use crate::{COS_ONE, COORD_LIMIT, UNIT_LEN, MAX_AGENTS, FORCE_LIMIT};

verus! {

broadcast use vstd::std_specs::hash::group_hash_axioms;

/// Whether a candidate at offset `d` from an observer moving with
/// velocity `vel` lies inside the view cone whose half-angle has the
/// fixed-point cosine `cv`.
///
/// The real condition "angle between `vel` and `d` is at most the view
/// angle" is `dot(vel, d) / (|vel| * |d|) >= cv / COS_ONE`, that is
/// `dot(vel, d) * COS_ONE >= cv * |vel| * |d|`.  Comparing the signed
/// squares of the two sides states exactly that over the integers, with
/// no square root: `t -> t * |t|` is strictly monotone.  A candidate
/// exactly on the cone boundary satisfies the comparison and is retained.
///
/// The angle is undefined for a zero observer velocity (and likewise a
/// zero offset); both sides are then zero and the comparison holds, so
/// the chosen convention is to retain such candidates: a stationary
/// observer sees in every direction.
pub open spec fn in_cone(vel: (int, int, int), d: (int, int, int), cv: int) -> bool {
    signed_square(v3_dot(vel, d) * COS_ONE) >= signed_square(cv) * (v3_mag2(vel) * v3_mag2(d))
}

/// Magnitudes of a bounded vector's square and of a dot product.
pub proof fn lemma_geom_bounds(a: (int, int, int), b: (int, int, int), la: int, lb: int)
    requires
        v3_in_bounds(a, la),
        v3_in_bounds(b, lb),
        la >= 0,
        lb >= 0,
    ensures
        0 <= v3_mag2(a) <= 3 * la * la,
        0 <= v3_mag2(b) <= 3 * lb * lb,
        -(3 * la * lb) <= v3_dot(a, b) <= 3 * la * lb,
{
    assert(0 <= a.0 * a.0 + a.1 * a.1 + a.2 * a.2 <= 3 * la * la) by (nonlinear_arith)
        requires
            -la <= a.0 <= la,
            -la <= a.1 <= la,
            -la <= a.2 <= la,
            la >= 0,
    ;
    assert(0 <= b.0 * b.0 + b.1 * b.1 + b.2 * b.2 <= 3 * lb * lb) by (nonlinear_arith)
        requires
            -lb <= b.0 <= lb,
            -lb <= b.1 <= lb,
            -lb <= b.2 <= lb,
            lb >= 0,
    ;
    assert(-(3 * la * lb) <= a.0 * b.0 + a.1 * b.1 + a.2 * b.2 <= 3 * la * lb)
        by (nonlinear_arith)
        requires
            -la <= a.0 <= la,
            -la <= a.1 <= la,
            -la <= a.2 <= la,
            -lb <= b.0 <= lb,
            -lb <= b.1 <= lb,
            -lb <= b.2 <= lb,
            la >= 0,
            lb >= 0,
    ;
}

/// Decides the view-cone test exactly.
pub fn in_view_cone(vel: &Vec3I, offset: &Vec3I, cos_limit: i64) -> (r: bool)
    requires
        v3_in_bounds(vel@, COORD_LIMIT as int),
        v3_in_bounds(offset@, 2 * COORD_LIMIT as int),
        -COS_ONE <= cos_limit <= COS_ONE,
    ensures
        r == in_cone(vel@, offset@, cos_limit as int),
{
    proof {
        let l: int = COORD_LIMIT as int;
        lemma_geom_bounds(vel@, offset@, l, 2 * l);
        assert(0 <= v3_mag2(vel@) <= 52776558133248 && 0 <= v3_mag2(offset@)
            <= 211106232532992 && -105553116266496 <= v3_dot(vel@, offset@)
            <= 105553116266496) by (nonlinear_arith)
            requires
                0 <= v3_mag2(vel@) <= 3 * l * l,
                0 <= v3_mag2(offset@) <= 3 * (2 * l) * (2 * l),
                -(3 * l * (2 * l)) <= v3_dot(vel@, offset@) <= 3 * l * (2 * l),
                l == 4194304,
        ;
    }
    let dv: i128 = dot_of(vel, offset);
    let dd: i128 = dv * (COS_ONE as i128);
    let m2v = mag2_of(vel);
    let m2d = mag2_of(offset);
    proof {
        let m2vi = m2v as int;
        let m2di = m2d as int;
        assert(0 <= m2vi * m2di <= 52776558133248 * 211106232532992) by (nonlinear_arith)
            requires
                0 <= m2vi <= 52776558133248,
                0 <= m2di <= 211106232532992,
        ;
    }
    let mm: u128 = m2v * m2d;
    proof {
        let cvi = cos_limit as int;
        assert(0 <= cvi * cvi <= 268435456) by (nonlinear_arith)
            requires
                -16384 <= cvi <= 16384,
        ;
    }
    let cv2: u128 = ((cos_limit as i128) * (cos_limit as i128)) as u128;
    proof {
        let mmi = mm as int;
        let cv2i = cv2 as int;
        assert(0 <= cv2i * mmi <= 268435456 * (52776558133248 * 211106232532992))
            by (nonlinear_arith)
            requires
                0 <= cv2i <= 268435456,
                0 <= mmi <= 52776558133248 * 211106232532992,
        ;
    }
    let rhs_mag: u128 = cv2 * mm;
    let lhs_abs: u128 = if dd >= 0 {
        dd as u128
    } else {
        (-dd) as u128
    };
    proof {
        let la = lhs_abs as int;
        assert(0 <= la * la <= 1729382256910270464 * 1729382256910270464) by (nonlinear_arith)
            requires
                0 <= la <= 1729382256910270464,
        ;
    }
    let lhs_mag: u128 = lhs_abs * lhs_abs;
    let ghost ddi = dd as int;
    let ghost cvi = cos_limit as int;
    let ghost mmi = mm as int;
    proof {
        assert(ddi == v3_dot(vel@, offset@) * COS_ONE);
        assert(mmi == v3_mag2(vel@) * v3_mag2(offset@));
        if ddi >= 0 {
            assert(signed_square(ddi) == lhs_mag as int);
        } else {
            let la = lhs_abs as int;
            assert(ddi * ddi == la * la) by (nonlinear_arith)
                requires
                    la == -ddi,
            ;
            assert(signed_square(ddi) == -(lhs_mag as int));
            assert(la * la >= 1) by (nonlinear_arith)
                requires
                    la >= 1,
            ;
        }
        if cvi >= 0 {
            assert(signed_square(cvi) == cv2 as int);
            assert(signed_square(cvi) * mmi == rhs_mag as int);
        } else {
            assert(cvi * cvi == cv2 as int);
            assert(signed_square(cvi) == -(cv2 as int));
            assert((-(cv2 as int)) * mmi == -((cv2 as int) * mmi)) by (nonlinear_arith);
            assert(signed_square(cvi) * mmi == -(rhs_mag as int));
        }
    }
    if dd >= 0 {
        if cos_limit >= 0 {
            lhs_mag >= rhs_mag
        } else {
            true
        }
    } else {
        if cos_limit >= 0 {
            false
        } else {
            lhs_mag <= rhs_mag
        }
    }
}

/// The view-cone rule at and beyond the boundary: a candidate whose
/// (squared-compared) angle equals the limit is retained, one strictly
/// beyond it is excluded, and widening the cone (lowering the cosine
/// limit) never drops a retained candidate.
pub proof fn lemma_view_cone_boundary(
    vel: (int, int, int),
    d: (int, int, int),
    cv1: int,
    cv2: int,
)
    ensures
        signed_square(v3_dot(vel, d) * COS_ONE) == signed_square(cv1) * (v3_mag2(vel) * v3_mag2(
            d,
        )) ==> in_cone(vel, d, cv1),
        signed_square(v3_dot(vel, d) * COS_ONE) < signed_square(cv1) * (v3_mag2(vel) * v3_mag2(d))
            ==> !in_cone(vel, d, cv1),
        in_cone(vel, d, cv1) && cv2 <= cv1 ==> in_cone(vel, d, cv2),
{
    if in_cone(vel, d, cv1) && cv2 <= cv1 {
        let m = v3_mag2(vel) * v3_mag2(d);
        crate::vec3::lemma_mag2_nonneg(vel);
        crate::vec3::lemma_mag2_nonneg(d);
        assert(m >= 0) by (nonlinear_arith)
            requires
                m == v3_mag2(vel) * v3_mag2(d),
                v3_mag2(vel) >= 0,
                v3_mag2(d) >= 0,
        ;
        let s1 = signed_square(cv1);
        let s2 = signed_square(cv2);
        if cv2 >= 0 {
            assert(cv2 * cv2 <= cv1 * cv1) by (nonlinear_arith)
                requires
                    0 <= cv2 <= cv1,
            ;
        } else if cv1 >= 0 {
            assert(cv2 * cv2 >= 0 && cv1 * cv1 >= 0) by (nonlinear_arith);
        } else {
            assert(cv2 * cv2 >= cv1 * cv1) by (nonlinear_arith)
                requires
                    cv2 <= cv1 < 0,
            ;
        }
        assert(s2 <= s1);
        assert(s2 * m <= s1 * m) by (nonlinear_arith)
            requires
                s2 <= s1,
                m >= 0,
        ;
    }
}

/// At a right-angle limit (cosine zero) the view-cone test is exactly
/// the sign of the dot product: candidates at or ahead of abeam pass,
/// candidates behind are excluded.
pub proof fn lemma_view_cone_right_angle(vel: (int, int, int), d: (int, int, int))
    ensures
        in_cone(vel, d, 0) <==> v3_dot(vel, d) >= 0,
{
    let t = v3_dot(vel, d) * COS_ONE;
    crate::vec3::lemma_mag2_nonneg(vel);
    crate::vec3::lemma_mag2_nonneg(d);
    assert(signed_square(0) * (v3_mag2(vel) * v3_mag2(d)) == 0) by (nonlinear_arith);
    if t < 0 {
        assert(t * t > 0) by (nonlinear_arith)
            requires
                t < 0,
        ;
    } else {
        assert(t * t >= 0) by (nonlinear_arith);
    }
    assert(v3_dot(vel, d) >= 0 <==> t >= 0) by (nonlinear_arith)
        requires
            t == v3_dot(vel, d) * COS_ONE,
            COS_ONE == 16384,
    ;
}

/// The Cauchy-Schwarz inequality for three components, by the Lagrange
/// identity: the product of the squared magnitudes exceeds the squared
/// dot product by a sum of squares.
#[verifier::rlimit(100)]
proof fn lemma_cauchy_schwarz_3(a: int, b: int, c: int, x: int, y: int, z: int)
    ensures
        (a * x + b * y + c * z) * (a * x + b * y + c * z) <= (a * a + b * b + c * c) * (x * x + y
            * y + z * z),
{
    let u1 = a * x;
    let u2 = b * y;
    let u3 = c * z;
    let dot = u1 + u2 + u3;
    assert(dot * dot == u1 * u1 + u2 * u2 + u3 * u3 + 2 * (u1 * u2) + 2 * (u1 * u3) + 2 * (u2
        * u3)) by (nonlinear_arith)
        requires
            dot == u1 + u2 + u3,
    ;
    let m = (a * a + b * b + c * c) * (x * x + y * y + z * z);
    let s2 = x * x + y * y + z * z;
    assert(m == (a * a) * s2 + (b * b) * s2 + (c * c) * s2) by (nonlinear_arith)
        requires
            m == (a * a + b * b + c * c) * s2,
    ;
    assert((a * a) * s2 == (a * x) * (a * x) + (a * y) * (a * y) + (a * z) * (a * z))
        by (nonlinear_arith)
        requires
            s2 == x * x + y * y + z * z,
    ;
    assert((b * b) * s2 == (b * x) * (b * x) + (b * y) * (b * y) + (b * z) * (b * z))
        by (nonlinear_arith)
        requires
            s2 == x * x + y * y + z * z,
    ;
    assert((c * c) * s2 == (c * x) * (c * x) + (c * y) * (c * y) + (c * z) * (c * z))
        by (nonlinear_arith)
        requires
            s2 == x * x + y * y + z * z,
    ;
    let c01 = a * y - b * x;
    let c02 = a * z - c * x;
    let c12 = b * z - c * y;
    assert(c01 * c01 == (a * y) * (a * y) + (b * x) * (b * x) - 2 * ((a * x) * (b * y)))
        by (nonlinear_arith)
        requires
            c01 == a * y - b * x,
    ;
    assert(c02 * c02 == (a * z) * (a * z) + (c * x) * (c * x) - 2 * ((a * x) * (c * z)))
        by (nonlinear_arith)
        requires
            c02 == a * z - c * x,
    ;
    assert(c12 * c12 == (b * z) * (b * z) + (c * y) * (c * y) - 2 * ((b * y) * (c * z)))
        by (nonlinear_arith)
        requires
            c12 == b * z - c * y,
    ;
    assert(c01 * c01 >= 0 && c02 * c02 >= 0 && c12 * c12 >= 0) by (nonlinear_arith);
    assert(m - dot * dot == c01 * c01 + c02 * c02 + c12 * c12);
}

/// A full view cone (the cosine of pi) retains every candidate: by the
/// Cauchy-Schwarz inequality the dot product can never fall below
/// `-|vel| * |d|`.
pub proof fn lemma_view_cone_full(vel: (int, int, int), d: (int, int, int))
    ensures
        in_cone(vel, d, -COS_ONE),
{
    let dot = v3_dot(vel, d);
    let m = v3_mag2(vel) * v3_mag2(d);
    crate::vec3::lemma_mag2_nonneg(vel);
    crate::vec3::lemma_mag2_nonneg(d);
    lemma_cauchy_schwarz_3(vel.0, vel.1, vel.2, d.0, d.1, d.2);
    assert(dot * dot <= m);
    let t = dot * COS_ONE;
    assert((-COS_ONE) * (-COS_ONE) == COS_ONE * COS_ONE) by (nonlinear_arith);
    assert(signed_square(-COS_ONE) * m == -((COS_ONE * COS_ONE) * m)) by (nonlinear_arith)
        requires
            m >= 0,
            signed_square(-COS_ONE) == -(COS_ONE * COS_ONE),
    ;
    if t >= 0 {
        assert(signed_square(t) == t * t);
        assert(t * t >= 0) by (nonlinear_arith);
        assert(signed_square(t) >= -((COS_ONE * COS_ONE) * m)) by (nonlinear_arith)
            requires
                signed_square(t) == t * t,
                t * t >= 0,
                COS_ONE * COS_ONE >= 0,
                m >= 0,
        ;
    } else {
        assert(t * t == (dot * dot) * (COS_ONE * COS_ONE)) by (nonlinear_arith)
            requires
                t == dot * COS_ONE,
        ;
        assert((dot * dot) * (COS_ONE * COS_ONE) <= m * (COS_ONE * COS_ONE)) by (nonlinear_arith)
            requires
                dot * dot <= m,
                COS_ONE * COS_ONE >= 0,
        ;
        assert(-(t * t) >= -((COS_ONE * COS_ONE) * m)) by (nonlinear_arith)
            requires
                t * t <= m * (COS_ONE * COS_ONE),
        ;
    }
}

/// A stationary observer sees in every direction: with zero velocity the
/// view-cone test retains every candidate.
pub proof fn lemma_zero_velocity_omnidirectional(d: (int, int, int), cv: int)
    ensures
        in_cone(v3_zero(), d, cv),
{
    assert(v3_dot(v3_zero(), d) == 0);
    assert(v3_mag2(v3_zero()) == 0);
    assert(signed_square(0 * COS_ONE) == 0);
    assert(signed_square(cv) * (0 * v3_mag2(d)) == 0) by (nonlinear_arith);
}


/// The running state of one agent's neighbour scan: the three normalized
/// steering sums and the nearest separation candidate seen so far
/// (`closest_d2 < 0` while there is none).
pub ghost struct ForceAccum {
    pub sep: (int, int, int),
    pub align: (int, int, int),
    pub coh: (int, int, int),
    pub closest_d2: int,
    pub closest_diff: (int, int, int),
}

/// The scan state before any candidate was seen.
pub open spec fn accum_init() -> ForceAccum {
    ForceAccum {
        sep: v3_zero(),
        align: v3_zero(),
        coh: v3_zero(),
        closest_d2: -1,
        closest_diff: v3_zero(),
    }
}

/// One candidate's contribution to an agent's scan state: the agent
/// itself and unknown identities are skipped; a candidate outside the
/// view cone is ignored; one within the separation range adds its
/// normalized away-vector and competes for nearest neighbour; alignment
/// and cohesion only accumulate over candidates of the same flock.
pub open spec fn accum_step(
    agents: Seq<Boid>,
    a: Boid,
    acc: ForceAccum,
    id: u64,
    cfg: BoidConfig,
) -> ForceAccum {
    let j = agent_index(agents, id);
    if id == a.id || j < 0 {
        acc
    } else {
        let b = agents[j];
        let diff = v3_sub(b.position@, a.position@);
        if !in_cone(a.velocity@, diff, cfg.view_cos as int) {
            acc
        } else {
            let d2 = v3_mag2(diff);
            let away = v3_sub(a.position@, b.position@);
            let near = acc.closest_d2 < 0 || d2 < acc.closest_d2;
            let acc1 = if d2 < cfg.separation_range * cfg.separation_range {
                ForceAccum {
                    sep: v3_add(acc.sep, v3_scale_to(away, UNIT_LEN as int)),
                    align: acc.align,
                    coh: acc.coh,
                    closest_d2: if near {
                        d2
                    } else {
                        acc.closest_d2
                    },
                    closest_diff: if near {
                        away
                    } else {
                        acc.closest_diff
                    },
                }
            } else {
                acc
            };
            if a.flock.identity != b.flock.identity {
                acc1
            } else {
                let acc2 = if d2 < cfg.alignment_range * cfg.alignment_range {
                    ForceAccum {
                        sep: acc1.sep,
                        align: v3_add(acc1.align, v3_scale_to(b.velocity@, UNIT_LEN as int)),
                        coh: acc1.coh,
                        closest_d2: acc1.closest_d2,
                        closest_diff: acc1.closest_diff,
                    }
                } else {
                    acc1
                };
                if d2 < cfg.cohesion_range * cfg.cohesion_range {
                    ForceAccum {
                        sep: acc2.sep,
                        align: acc2.align,
                        coh: v3_add(acc2.coh, v3_scale_to(diff, UNIT_LEN as int)),
                        closest_d2: acc2.closest_d2,
                        closest_diff: acc2.closest_diff,
                    }
                } else {
                    acc2
                }
            }
        }
    }
}

/// The scan state after the first `n` candidates.
pub open spec fn accum_fold(
    agents: Seq<Boid>,
    a: Boid,
    cands: Seq<u64>,
    cfg: BoidConfig,
    n: int,
) -> ForceAccum
    decreases n,
{
    if n <= 0 {
        accum_init()
    } else {
        accum_step(agents, a, accum_fold(agents, a, cands, cfg, n - 1), cands[n - 1], cfg)
    }
}

/// The steering force of one agent: each accumulated sum re-normalized to
/// its strength, plus the nearest separation candidate's away-vector once
/// more at separation strength (its doubled influence).
pub open spec fn steer_force(
    agents: Seq<Boid>,
    a: Boid,
    cands: Seq<u64>,
    cfg: BoidConfig,
) -> (int, int, int) {
    let acc = accum_fold(agents, a, cands, cfg, cands.len() as int);
    v3_add(
        v3_add(
            v3_add(
                v3_scale_to(acc.sep, cfg.separation_strength as int),
                v3_scale_to(acc.align, cfg.alignment_strength as int),
            ),
            v3_scale_to(acc.coh, cfg.cohesion_strength as int),
        ),
        v3_scale_to(acc.closest_diff, cfg.separation_strength as int),
    )
}

/// The pull toward the agent's flock centre.
pub open spec fn centre_force(a: Boid, cfg: BoidConfig) -> (int, int, int) {
    v3_scale_to(v3_sub(a.flock.centre@, a.position@), cfg.flock_centre_strength as int)
}

/// The whole per-agent force of the main pass: steering plus
/// flock-centre attraction.
pub open spec fn agent_force(
    agents: Seq<Boid>,
    a: Boid,
    cands: Seq<u64>,
    cfg: BoidConfig,
) -> (int, int, int) {
    v3_add(steer_force(agents, a, cands, cfg), centre_force(a, cfg))
}

/// The identity lookup mirrors `agent_index` over the snapshot.
pub open spec fn index_ok(m: Map<u64, usize>, agents: Seq<Boid>) -> bool {
    &&& forall|id: u64| #[trigger] m.contains_key(id) <==> agent_index(agents, id) >= 0
    &&& forall|id: u64| #[trigger] m.contains_key(id) ==> m[id] as int == agent_index(agents, id)
}

/// Builds the identity-to-index lookup for a snapshot.
#[verifier::loop_isolation(false)]
pub fn build_index(agents: &Vec<Boid>) -> (m: HashMap<u64, usize>)
    requires
        distinct_ids(agents@),
    ensures
        index_ok(m@, agents@),
{
    let mut m: HashMap<u64, usize> = HashMap::new();
    let mut i: usize = 0;
    while i < agents.len()
    invariant
        0 <= i <= agents@.len(),
        forall|id: u64| #[trigger]
            m@.contains_key(id) ==> 0 <= m@[id] < i && agents@[m@[id] as int].id == id,
        forall|k: int| 0 <= k < i ==> m@.contains_key(#[trigger] agents@[k].id),
    decreases agents@.len() - i,
    {
        let id = agents[i].id;
        m.insert(id, i);
        i = i + 1;
    }
    proof {
        assert forall|id: u64| #[trigger] m@.contains_key(id) implies agent_index(agents@, id)
            >= 0 && m@[id] as int == agent_index(agents@, id) by {
            lemma_agent_index_of(agents@, m@[id] as int);
        }
        assert forall|id: u64| agent_index(agents@, id) >= 0 implies m@.contains_key(id) by {
            lemma_agent_index(agents@, id);
            assert(agents@[agent_index(agents@, id)].id == id);
        }
    }
    m
}

/// Computes one agent's force from the candidate list of its grid
/// neighbourhood: exactly `agent_force` of the snapshot.
#[verifier::loop_isolation(false)]
pub fn compute_agent_force(
    agents: &Vec<Boid>,
    idx: usize,
    cands: &Vec<u64>,
    lookup: &HashMap<u64, usize>,
    cfg: &BoidConfig,
) -> (f: Vec3I)
    requires
        cfg.valid(),
        boids_ok(agents@),
        idx < agents@.len(),
        index_ok(lookup@, agents@),
        cands@.len() <= 27 * (MAX_AGENTS as int),
    ensures
        f@ == agent_force(agents@, agents@[idx as int], cands@, *cfg),
        v3_in_bounds(f@, 5 * COORD_LIMIT as int),
{
    let a = agents[idx];
    let ghost av = agents@[idx as int];
    let ghost cfgv = *cfg;
    let sep_range2 = range_square(cfg.separation_range);
    let align_range2 = range_square(cfg.alignment_range);
    let coh_range2 = range_square(cfg.cohesion_range);
    let mut sep = Vec3I::zero();
    let mut align = Vec3I::zero();
    let mut coh = Vec3I::zero();
    let mut closest_diff = Vec3I::zero();
    let mut closest_d2: u128 = 0;
    let mut has_closest = false;
    let mut i: usize = 0;
    while i < cands.len()
    invariant
        0 <= i <= cands@.len(),
        ({
            let acc = accum_fold(agents@, av, cands@, cfgv, i as int);
            &&& sep@ == acc.sep
            &&& align@ == acc.align
            &&& coh@ == acc.coh
            &&& (has_closest <==> acc.closest_d2 >= 0)
            &&& (has_closest ==> closest_d2 as int == acc.closest_d2)
            &&& closest_diff@ == acc.closest_diff
        }),
        v3_in_bounds(sep@, UNIT_LEN as int * (i as int)),
        v3_in_bounds(align@, UNIT_LEN as int * (i as int)),
        v3_in_bounds(coh@, UNIT_LEN as int * (i as int)),
        v3_in_bounds(closest_diff@, 2 * COORD_LIMIT as int),
    decreases cands@.len() - i,
    {
        let id = cands[i];
        let ghost acc_i = accum_fold(agents@, av, cands@, cfgv, i as int);
        let ghost acc_n = accum_fold(agents@, av, cands@, cfgv, i as int + 1);
        proof {
            assert(acc_n == accum_step(agents@, av, acc_i, cands@[i as int], cfgv));
        }
        if id != a.id {
            match lookup.get(&id) {
                Some(j_ref) => {
                    let j = *j_ref;
                    proof {
                        lemma_agent_index(agents@, id);
                        assert(j as int == agent_index(agents@, id));
                        assert(0 <= j < agents@.len());
                    }
                    let b = agents[j];
                    let diff = v_sub(&b.position, &a.position);
                    if in_view_cone(&a.velocity, &diff, cfg.view_cos) {
                        let d2 = mag2_of(&diff);
                        let away = v_sub(&a.position, &b.position);
                        if d2 < sep_range2 {
                            let s = scale_to(&away, UNIT_LEN);
                            sep = v_add(&sep, &s);
                            if !has_closest || d2 < closest_d2 {
                                has_closest = true;
                                closest_d2 = d2;
                                closest_diff = away;
                            }
                        }
                        if a.flock.identity == b.flock.identity {
                            if d2 < align_range2 {
                                let al = scale_to(&b.velocity, UNIT_LEN);
                                align = v_add(&align, &al);
                            }
                            if d2 < coh_range2 {
                                let co = scale_to(&diff, UNIT_LEN);
                                coh = v_add(&coh, &co);
                            }
                        }
                    }
                },
                None => {
                    proof {
                        lemma_agent_index(agents@, id);
                        assert(agent_index(agents@, id) < 0);
                        assert(acc_n == acc_i);
                    }
                },
            }
        }
        proof {
            let u = UNIT_LEN as int;
            let ii = i as int;
            assert(u * (ii + 1) == u * ii + u) by (nonlinear_arith);
        }
        i = i + 1;
    }
    proof {
        assert(accum_fold(agents@, av, cands@, cfgv, cands@.len() as int) == accum_fold(
            agents@,
            av,
            cands@,
            cfgv,
            i as int,
        ));
        let u = UNIT_LEN as int;
        let n = cands@.len() as int;
        assert(u * n <= 1024 * (27 * (MAX_AGENTS as int))) by (nonlinear_arith)
            requires
                0 <= n <= 27 * (MAX_AGENTS as int),
                u == 1024,
        ;
    }
    let f1 = scale_to(&sep, cfg.separation_strength);
    let f2 = scale_to(&align, cfg.alignment_strength);
    let f3 = scale_to(&coh, cfg.cohesion_strength);
    let f4 = scale_to(&closest_diff, cfg.separation_strength);
    let centre_diff = v_sub(&a.flock.centre, &a.position);
    let f5 = scale_to(&centre_diff, cfg.flock_centre_strength);
    let g1 = v_add(&f1, &f2);
    let g2 = v_add(&g1, &f3);
    let g3 = v_add(&g2, &f4);
    v_add(&g3, &f5)
}

/// Squares a non-negative range for exact squared-distance comparison.
pub fn range_square(r: i64) -> (s: u128)
    requires
        0 <= r <= COORD_LIMIT,
    ensures
        s as int == (r as int) * (r as int),
{
    proof {
        let ri = r as int;
        assert(0 <= ri * ri <= 4194304 * 4194304) by (nonlinear_arith)
            requires
                0 <= ri <= 4194304,
        ;
    }
    (r as u128) * (r as u128)
}


/// The views of a vector of vectors.
pub open spec fn views_of(s: Seq<Vec3I>) -> Seq<(int, int, int)> {
    Seq::new(s.len(), |i: int| s[i]@)
}

/// Index of the prey nearest to predator `p` among the first `n`
/// candidates (`-1` if none): the true minimum by squared Euclidean
/// distance, the earliest candidate winning exact ties.
pub open spec fn prey_scan(agents: Seq<Boid>, p: Boid, cands: Seq<u64>, n: int) -> int
    decreases n,
{
    if n <= 0 {
        -1
    } else {
        let prev = prey_scan(agents, p, cands, n - 1);
        let j = agent_index(agents, cands[n - 1]);
        if j >= 0 && agents[j].role == Role::Prey {
            if prev < 0 || v3_dist2(agents[j].position@, p.position@) < v3_dist2(
                agents[prev].position@,
                p.position@,
            ) {
                j
            } else {
                prev
            }
        } else {
            prev
        }
    }
}

/// The avoidance pushes of one predator's scan: every prey found among
/// the first `n` candidates is pushed away from the predator at
/// `predator_avoidance_strength`.
pub open spec fn avoid_fold(
    agents: Seq<Boid>,
    p: Boid,
    cands: Seq<u64>,
    cfg: BoidConfig,
    fs: Seq<(int, int, int)>,
    n: int,
) -> Seq<(int, int, int)>
    decreases n,
{
    if n <= 0 {
        fs
    } else {
        let fs1 = avoid_fold(agents, p, cands, cfg, fs, n - 1);
        let j = agent_index(agents, cands[n - 1]);
        if j >= 0 && agents[j].role == Role::Prey && 0 <= j < fs1.len() {
            fs1.update(
                j,
                v3_add(
                    fs1[j],
                    v3_scale_to(
                        v3_sub(agents[j].position@, p.position@),
                        cfg.predator_avoidance_strength as int,
                    ),
                ),
            )
        } else {
            fs1
        }
    }
}

/// One predator's whole contribution: all avoidance pushes, then its own
/// chase toward the nearest prey found (none if no prey was seen).
pub open spec fn predator_step(
    agents: Seq<Boid>,
    k: int,
    cands: Seq<u64>,
    cfg: BoidConfig,
    fs: Seq<(int, int, int)>,
) -> Seq<(int, int, int)> {
    let fs1 = avoid_fold(agents, agents[k], cands, cfg, fs, cands.len() as int);
    let t = prey_scan(agents, agents[k], cands, cands.len() as int);
    if t >= 0 && 0 <= k < fs1.len() {
        fs1.update(
            k,
            v3_add(
                fs1[k],
                v3_scale_to(
                    v3_sub(agents[t].position@, agents[k].position@),
                    cfg.predator_strength as int,
                ),
            ),
        )
    } else {
        fs1
    }
}

/// The predator/prey pass over the first `n` agents, predators in index
/// order, each scanning its own grid neighbourhood.
pub open spec fn predator_fold(
    agents: Seq<Boid>,
    m: BoidMap,
    cfg: BoidConfig,
    fs: Seq<(int, int, int)>,
    n: int,
) -> Seq<(int, int, int)>
    decreases n,
{
    if n <= 0 {
        fs
    } else {
        let fs1 = predator_fold(agents, m, cfg, fs, n - 1);
        if agents[n - 1].role == Role::Predator {
            predator_step(
                agents,
                n - 1,
                m.neighbour_cat(cell3(agents[n - 1].position@, m.res()), 27),
                cfg,
                fs1,
            )
        } else {
            fs1
        }
    }
}

/// The nearest-prey scan returns a prey whose distance is the true
/// minimum over every prey found among the candidates: never a farther
/// prey, and the earliest of exact ties.
pub proof fn lemma_prey_scan_min(agents: Seq<Boid>, p: Boid, cands: Seq<u64>, n: int)
    requires
        0 <= n <= cands.len(),
    ensures
        prey_scan(agents, p, cands, n) >= 0 ==> {
            let t = prey_scan(agents, p, cands, n);
            &&& 0 <= t < agents.len()
            &&& agents[t].role == Role::Prey
            &&& forall|i: int|
                0 <= i < n && agent_index(agents, cands[i]) >= 0 && agents[agent_index(
                    agents,
                    cands[i],
                )].role == Role::Prey ==> v3_dist2(agents[t].position@, p.position@) <= v3_dist2(
                    agents[#[trigger] agent_index(agents, cands[i])].position@,
                    p.position@,
                )
        },
        prey_scan(agents, p, cands, n) < 0 ==> forall|i: int|
            0 <= i < n && #[trigger] agent_index(agents, cands[i]) >= 0 ==> agents[agent_index(
                agents,
                cands[i],
            )].role != Role::Prey,
    decreases n,
{
    if n > 0 {
        lemma_prey_scan_min(agents, p, cands, n - 1);
        lemma_agent_index(agents, cands[n - 1]);
    }
}


/// Flock isolation: a candidate of another flock group contributes
/// nothing to alignment or cohesion, whatever the ranges; and if it also
/// sits outside the separation range, it contributes nothing at all.
pub proof fn lemma_flock_isolation(
    agents: Seq<Boid>,
    a: Boid,
    acc: ForceAccum,
    id: u64,
    cfg: BoidConfig,
)
    requires
        agent_index(agents, id) >= 0,
        agents[agent_index(agents, id)].flock.identity != a.flock.identity,
    ensures
        accum_step(agents, a, acc, id, cfg).align == acc.align,
        accum_step(agents, a, acc, id, cfg).coh == acc.coh,
        v3_dist2(agents[agent_index(agents, id)].position@, a.position@) >= cfg.separation_range
            * cfg.separation_range ==> accum_step(agents, a, acc, id, cfg) == acc,
{
}

/// Applies the predator/prey rule to the force buffer: every predator
/// scans its grid neighbourhood, each prey found is pushed away from the
/// predator, and the predator is drawn toward the nearest prey found.
/// The buffer afterwards equals `predator_fold` of the snapshot.
#[verifier::loop_isolation(false)]
pub fn predator_prey_forces(
    agents: &Vec<Boid>,
    map: &BoidMap,
    lookup: &HashMap<u64, usize>,
    cfg: &BoidConfig,
    forces: &mut Vec<Vec3I>,
)
    requires
        cfg.valid(),
        boids_ok(agents@),
        index_ok(lookup@, agents@),
        map.wf(),
        old(forces)@.len() == agents@.len(),
        agents@.len() <= MAX_AGENTS as int,
        forall|i: int|
            0 <= i < agents@.len() ==> v3_in_bounds(
                #[trigger] old(forces)@[i]@,
                5 * COORD_LIMIT as int,
            ),
        forall|c: (int, int, int)| no_dups(#[trigger] map.neighbour_cat(c, 27)),
    ensures
        final(forces)@.len() == agents@.len(),
        views_of(final(forces)@) == predator_fold(
            agents@,
            *map,
            *cfg,
            views_of(old(forces)@),
            agents@.len() as int,
        ),
        forall|i: int|
            0 <= i < agents@.len() ==> v3_in_bounds(#[trigger] final(forces)@[i]@, FORCE_LIMIT as int),
{
    let ghost base0 = views_of(old(forces)@);
    let n = agents.len();
    let mut k: usize = 0;
    while k < n
    invariant
        0 <= k <= n,
        forces@.len() == n as int,
        views_of(forces@) == predator_fold(agents@, *map, *cfg, base0, k as int),
        forall|i: int|
            0 <= i < n && agents@[i].role == Role::Prey ==> v3_in_bounds(
                #[trigger] forces@[i]@,
                5 * COORD_LIMIT as int + (k as int) * COORD_LIMIT as int,
            ),
        forall|i: int|
            0 <= i < n && agents@[i].role == Role::Predator && i < k ==> v3_in_bounds(
                #[trigger] forces@[i]@,
                6 * COORD_LIMIT as int,
            ),
        forall|i: int|
            0 <= i < n && agents@[i].role == Role::Predator && i >= k ==> v3_in_bounds(
                #[trigger] forces@[i]@,
                5 * COORD_LIMIT as int,
            ),
    decreases n - k,
    {
        if agents[k].role == Role::Predator {
            let pk = agents[k];
            let cands = map.get_possible_neighbours(pk.position);
            let ghost base = views_of(forces@);
            let ghost candsv = cands@;
            proof {
                assert(no_dups(candsv));
                assert(5 * COORD_LIMIT as int + (k as int) * COORD_LIMIT as int <= 5
                    * COORD_LIMIT as int + (MAX_AGENTS as int) * COORD_LIMIT as int)
                    by (nonlinear_arith)
                    requires
                        0 <= k as int <= MAX_AGENTS as int,
                        COORD_LIMIT as int >= 0,
                ;
            }
            let mut best: usize = 0;
            let mut best_d2: u128 = 0;
            let mut has_best = false;
            let mut i: usize = 0;
            while i < cands.len()
            invariant
                0 <= i <= candsv.len(),
                forces@.len() == n as int,
                views_of(forces@) == avoid_fold(agents@, pk, candsv, *cfg, base, i as int),
                forall|idx: int|
                    0 <= idx < n ==> v3_in_bounds(
                        v3_sub(#[trigger] forces@[idx]@, base[idx]),
                        COORD_LIMIT as int,
                    ),
                forall|idx: int|
                    0 <= idx < n && #[trigger] forces@[idx]@ != base[idx] ==> agents@[idx].role
                        == Role::Prey && exists|i2: int|
                        0 <= i2 < i && agent_index(agents@, candsv[i2]) == idx,
                has_best ==> 0 <= best < n && agents@[best as int].role == Role::Prey
                    && best_d2 as int == v3_dist2(agents@[best as int].position@, pk.position@),
                prey_scan(agents@, pk, candsv, i as int) == (if has_best {
                    best as int
                } else {
                    -1
                }),
            decreases candsv.len() - i,
            {
                let id = cands[i];
                proof {
                    lemma_agent_index(agents@, id);
                }
                match lookup.get(&id) {
                    Some(j_ref) => {
                        let j = *j_ref;
                        if agents[j].role == Role::Prey {
                            proof {
                                if forces@[j as int]@ != base[j as int] {
                                    let i2 = choose|i2: int|
                                        0 <= i2 < i && agent_index(agents@, candsv[i2])
                                            == j as int;
                                    lemma_agent_index(agents@, candsv[i2]);
                                    assert(candsv[i2] == agents@[j as int].id);
                                    assert(id == agents@[j as int].id);
                                    assert(false);
                                }
                            }
                            let dirv = v_sub(&agents[j].position, &pk.position);
                            let push = scale_to(&dirv, cfg.predator_avoidance_strength);
                            let cur = forces[j];
                            let newf = v_add(&cur, &push);
                            forces.set(j, newf);
                            let d2 = dist2_of(&agents[j].position, &pk.position);
                            if !has_best || d2 < best_d2 {
                                has_best = true;
                                best = j;
                                best_d2 = d2;
                            }
                            proof {
                                assert(views_of(forces@) =~= avoid_fold(
                                    agents@,
                                    pk,
                                    candsv,
                                    *cfg,
                                    base,
                                    i as int + 1,
                                ));
                                assert(v3_sub(forces@[j as int]@, base[j as int]) == push@);
                            }
                        } else {
                            proof {
                                assert(views_of(forces@) =~= avoid_fold(
                                    agents@,
                                    pk,
                                    candsv,
                                    *cfg,
                                    base,
                                    i as int + 1,
                                ));
                            }
                        }
                    },
                    None => {
                        proof {
                            assert(views_of(forces@) =~= avoid_fold(
                                agents@,
                                pk,
                                candsv,
                                *cfg,
                                base,
                                i as int + 1,
                            ));
                        }
                    },
                }
                i = i + 1;
            }
            if has_best {
                let dirv = v_sub(&agents[best].position, &pk.position);
                let chase = scale_to(&dirv, cfg.predator_strength);
                let cur = forces[k];
                let newf = v_add(&cur, &chase);
                forces.set(k, newf);
            }
            proof {
                assert(views_of(forces@) =~= predator_step(
                    agents@,
                    k as int,
                    candsv,
                    *cfg,
                    base,
                ));
                assert(views_of(forces@) =~= predator_fold(
                    agents@,
                    *map,
                    *cfg,
                    base0,
                    k as int + 1,
                ));
                assert forall|idx: int|
                    0 <= idx < n && agents@[idx].role == Role::Prey implies v3_in_bounds(
                    #[trigger] forces@[idx]@,
                    5 * COORD_LIMIT as int + (k as int + 1) * COORD_LIMIT as int,
                ) by {
                    let c = COORD_LIMIT as int;
                    assert(5 * c + (k as int + 1) * c == 5 * c + (k as int) * c + c)
                        by (nonlinear_arith);
                }
            }
        } else {
            proof {
                assert(views_of(forces@) =~= predator_fold(
                    agents@,
                    *map,
                    *cfg,
                    base0,
                    k as int + 1,
                ));
                assert forall|idx: int|
                    0 <= idx < n && agents@[idx].role == Role::Prey implies v3_in_bounds(
                    #[trigger] forces@[idx]@,
                    5 * COORD_LIMIT as int + (k as int + 1) * COORD_LIMIT as int,
                ) by {
                    let c = COORD_LIMIT as int;
                    assert(5 * c + (k as int + 1) * c == 5 * c + (k as int) * c + c)
                        by (nonlinear_arith);
                    assert(v3_in_bounds(forces@[idx]@, 5 * c + (k as int) * c));
                }
            }
        }
        k = k + 1;
    }
    proof {
        assert forall|i: int| 0 <= i < agents@.len() implies v3_in_bounds(
            #[trigger] forces@[i]@,
            FORCE_LIMIT as int,
        ) by {
            let c = COORD_LIMIT as int;
            if agents@[i].role == Role::Prey {
                assert(5 * c + (n as int) * c <= 5 * c + (MAX_AGENTS as int) * c)
                    by (nonlinear_arith)
                    requires
                        0 <= n as int <= MAX_AGENTS as int,
                        c >= 0,
                ;
            }
        }
    }
}

} // verus!



