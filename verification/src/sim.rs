//! The per-tick pipeline: rebuild the spatial grid from the snapshot,
//! compute every agent's steering force from its grid neighbourhood, add
//! the predator/prey contributions, and integrate the forces into new,
//! speed-bounded velocities.  Every stage is pinned to a specification
//! function of the snapshot, the configuration and the tick length
//! alone, so the whole step is deterministic.

use vstd::prelude::*;
use std::collections::HashMap;
use crate::vec3::{Vec3I, v3_in_bounds, v3_len};
use crate::agent::{Boid, Velocity, boids_ok, distinct_ids};
use crate::config::BoidConfig;
use crate::grid::{BoidMap, cell3, no_dups, lemma_cat_no_dups, lemma_no_false_negatives, lemma_wf_bounds};
use crate::forces::{
    agent_force, views_of, predator_fold, index_ok, build_index, compute_agent_force,
    predator_prey_forces,
};
use crate::integrate::{integrate_spec, integrate_velocity};
use crate::{COORD_LIMIT, DT_LIMIT, MAX_AGENTS};

verus! {

/// The identities of the first `n` agents whose position falls in cell
/// `c`, in snapshot order: what one grid bucket holds after a rebuild.
pub open spec fn cell_ids(agents: Seq<Boid>, c: (int, int, int), res: int, n: int) -> Seq<u64>
    decreases n,
{
    if n <= 0 {
        Seq::<u64>::empty()
    } else {
        let pre = cell_ids(agents, c, res, n - 1);
        if cell3(agents[n - 1].position@, res) == c {
            pre.push(agents[n - 1].id)
        } else {
            pre
        }
    }
}

/// The cell edge length a rebuild uses: at least every interaction
/// range, and at least 1, so that all governed neighbours lie within the
/// queried 3x3x3 neighbourhood.
pub open spec fn grid_resolution(cfg: BoidConfig) -> int {
    let r1 = if cfg.separation_range > cfg.alignment_range {
        cfg.separation_range as int
    } else {
        cfg.alignment_range as int
    };
    let r2 = if r1 > cfg.cohesion_range {
        r1
    } else {
        cfg.cohesion_range as int
    };
    if r2 < 1 {
        1
    } else {
        r2
    }
}

/// An identity is filed in a cell exactly when some agent of the prefix
/// carries it and falls there.
pub proof fn lemma_cell_ids_mem(agents: Seq<Boid>, c: (int, int, int), res: int, n: int, id: u64)
    requires
        0 <= n <= agents.len(),
    ensures
        cell_ids(agents, c, res, n).contains(id) <==> exists|k: int|
            0 <= k < n && #[trigger] agents[k].id == id && cell3(agents[k].position@, res) == c,
    decreases n,
{
    if n > 0 {
        lemma_cell_ids_mem(agents, c, res, n - 1, id);
        let pre = cell_ids(agents, c, res, n - 1);
        let cur = cell_ids(agents, c, res, n);
        if cur.contains(id) {
            let i = choose|i: int| 0 <= i < cur.len() && cur[i] == id;
            if i < pre.len() {
                assert(pre[i] == id);
                assert(pre.contains(id));
            } else {
                assert(cell3(agents[n - 1].position@, res) == c && agents[n - 1].id == id);
            }
        }
        if exists|k: int|
            0 <= k < n && #[trigger] agents[k].id == id && cell3(agents[k].position@, res) == c {
            let k = choose|k: int|
                0 <= k < n && #[trigger] agents[k].id == id && cell3(agents[k].position@, res)
                    == c;
            if k < n - 1 {
                assert(pre.contains(id));
                let i = choose|i: int| 0 <= i < pre.len() && pre[i] == id;
                assert(cur[i] == id);
            } else {
                if cell3(agents[n - 1].position@, res) == c {
                    assert(cur[cur.len() - 1] == id);
                }
            }
            assert(cur.contains(id));
        }
    }
}

/// With distinct identities, every rebuilt bucket is duplicate-free.
pub proof fn lemma_cell_ids_no_dups(agents: Seq<Boid>, c: (int, int, int), res: int, n: int)
    requires
        distinct_ids(agents),
        0 <= n <= agents.len(),
    ensures
        no_dups(cell_ids(agents, c, res, n)),
    decreases n,
{
    if n > 0 {
        lemma_cell_ids_no_dups(agents, c, res, n - 1);
        let pre = cell_ids(agents, c, res, n - 1);
        let cur = cell_ids(agents, c, res, n);
        if cell3(agents[n - 1].position@, res) == c {
            assert forall|i: int, j: int| 0 <= i < j < cur.len() implies cur[i] != cur[j] by {
                if j == cur.len() - 1 {
                    if cur[i] == cur[j] {
                        assert(pre.contains(agents[n - 1].id));
                        lemma_cell_ids_mem(agents, c, res, n - 1, agents[n - 1].id);
                        let k = choose|k: int|
                            0 <= k < n - 1 && #[trigger] agents[k].id == agents[n - 1].id
                                && cell3(agents[k].position@, res) == c;
                        assert(false);
                    }
                } else {
                    assert(cur[i] == pre[i] && cur[j] == pre[j]);
                }
            }
        }
    }
}

/// Clears and refills the grid from the snapshot: the resolution becomes
/// the largest interaction range (at least 1), and each bucket holds
/// exactly the identities of the agents whose position floors into it,
/// in snapshot order.
#[verifier::loop_isolation(false)]
pub fn update_boid_map(map: &mut BoidMap, agents: &Vec<Boid>, cfg: &BoidConfig)
    requires
        old(map).wf(),
        cfg.valid(),
        boids_ok(agents@),
        agents@.len() <= MAX_AGENTS as int,
    ensures
        final(map).wf(),
        final(map).res() == grid_resolution(*cfg),
        final(map).size() == agents@.len(),
        forall|c: (int, int, int)| #[trigger]
            final(map).bucket(c) == cell_ids(agents@, c, grid_resolution(*cfg), agents@.len() as int),
{
    let r1 = if cfg.separation_range > cfg.alignment_range {
        cfg.separation_range
    } else {
        cfg.alignment_range
    };
    let r2 = if r1 > cfg.cohesion_range {
        r1
    } else {
        cfg.cohesion_range
    };
    let r = if r2 < 1 {
        1
    } else {
        r2
    };
    map.reset();
    map.set_resolution(r);
    let ghost res = grid_resolution(*cfg);
    let mut i: usize = 0;
    while i < agents.len()
    invariant
        0 <= i <= agents@.len(),
        map.wf(),
        map.res() == res,
        map.size() == i as int,
        forall|c: (int, int, int)| #[trigger]
            map.bucket(c) == cell_ids(agents@, c, res, i as int),
    decreases agents@.len() - i,
    {
        let b = agents[i];
        map.add_boid(b.id, b.position);
        proof {
            let target = cell3(agents@[i as int].position@, res);
            assert forall|c: (int, int, int)| #[trigger] map.bucket(c) == cell_ids(
                agents@,
                c,
                res,
                i as int + 1,
            ) by {
                if c != target {
                    assert(map.bucket(c) == cell_ids(agents@, c, res, i as int));
                }
            }
        }
        i = i + 1;
    }
}

/// The forces of the main pass: each agent's steering plus flock-centre
/// force, from its own grid neighbourhood.
pub open spec fn base_forces(agents: Seq<Boid>, m: BoidMap, cfg: BoidConfig) -> Seq<
    (int, int, int),
> {
    Seq::new(
        agents.len(),
        |i: int|
            agent_force(
                agents,
                agents[i],
                m.neighbour_cat(cell3(agents[i].position@, m.res()), 27),
                cfg,
            ),
    )
}

/// The complete force buffer of one tick: the main pass plus the
/// predator/prey pass, both over the same snapshot.
pub open spec fn step_forces(agents: Seq<Boid>, m: BoidMap, cfg: BoidConfig) -> Seq<
    (int, int, int),
> {
    predator_fold(agents, m, cfg, base_forces(agents, m, cfg), agents.len() as int)
}

/// The new velocities of one tick.
pub open spec fn step_velocities(
    agents: Seq<Boid>,
    m: BoidMap,
    cfg: BoidConfig,
    dt: int,
) -> Seq<(int, int, int)> {
    Seq::new(
        agents.len(),
        |i: int|
            integrate_spec(
                agents[i].velocity@,
                step_forces(agents, m, cfg)[i],
                dt,
                cfg.min_speed as int,
                cfg.max_speed as int,
            ),
    )
}

/// Computes the main-pass force of every agent against the grid.
#[verifier::loop_isolation(false)]
pub fn compute_forces(
    agents: &Vec<Boid>,
    map: &BoidMap,
    lookup: &HashMap<u64, usize>,
    cfg: &BoidConfig,
) -> (fs: Vec<Vec3I>)
    requires
        cfg.valid(),
        boids_ok(agents@),
        index_ok(lookup@, agents@),
        map.wf(),
    ensures
        fs@.len() == agents@.len(),
        views_of(fs@) == base_forces(agents@, *map, *cfg),
        forall|i: int|
            0 <= i < agents@.len() ==> v3_in_bounds(#[trigger] fs@[i]@, 5 * COORD_LIMIT as int),
{
    let mut fs: Vec<Vec3I> = Vec::new();
    let mut i: usize = 0;
    while i < agents.len()
    invariant
        0 <= i <= agents@.len(),
        fs@.len() == i as int,
        forall|k: int|
            0 <= k < i ==> #[trigger] fs@[k]@ == base_forces(agents@, *map, *cfg)[k],
        forall|k: int| 0 <= k < i ==> v3_in_bounds(#[trigger] fs@[k]@, 5 * COORD_LIMIT as int),
    decreases agents@.len() - i,
    {
        let cands = map.get_possible_neighbours(agents[i].position);
        proof {
            lemma_wf_bounds(*map);
            assert(cands@.len() <= 27 * (MAX_AGENTS as int));
        }
        let f = compute_agent_force(agents, i, &cands, lookup, cfg);
        fs.push(f);
        i = i + 1;
    }
    proof {
        assert(views_of(fs@) =~= base_forces(agents@, *map, *cfg));
    }
    fs
}

/// One full tick: rebuild the grid, compute all forces from the same
/// read-only snapshot, then integrate them into speed-bounded new
/// velocities, returned per agent identity in snapshot order.
#[verifier::loop_isolation(false)]
pub fn step(map: &mut BoidMap, agents: &Vec<Boid>, cfg: &BoidConfig, dt_millis: u64) -> (out:
    Vec<(u64, Velocity)>)
    requires
        old(map).wf(),
        cfg.valid(),
        boids_ok(agents@),
        distinct_ids(agents@),
        agents@.len() <= MAX_AGENTS as int,
        dt_millis <= DT_LIMIT,
    ensures
        final(map).wf(),
        final(map).res() == grid_resolution(*cfg),
        forall|c: (int, int, int)| #[trigger]
            final(map).bucket(c) == cell_ids(agents@, c, grid_resolution(*cfg), agents@.len() as int),
        out@.len() == agents@.len(),
        forall|i: int| 0 <= i < out@.len() ==> (#[trigger] out@[i]).0 == agents@[i].id,
        forall|i: int|
            0 <= i < out@.len() ==> (#[trigger] out@[i]).1.value@ == step_velocities(
                agents@,
                *final(map),
                *cfg,
                dt_millis as int,
            )[i],
        forall|i: int|
            0 <= i < out@.len() ==> v3_len((#[trigger] out@[i]).1.value@) <= cfg.max_speed,
        forall|i: int|
            0 <= i < out@.len() && (#[trigger] out@[i]).1.value@ != crate::vec3::v3_zero()
                ==> v3_len(out@[i].1.value@) + 8 >= cfg.min_speed,
{
    update_boid_map(map, agents, cfg);
    proof {
        let m = *map;
        assert forall|cl: (int, int, int)| no_dups(#[trigger] m.bucket(cl)) by {
            lemma_cell_ids_no_dups(agents@, cl, m.res(), agents@.len() as int);
        }
        assert forall|c1: (int, int, int), c2: (int, int, int), id: u64|
            #![trigger m.bucket(c1).contains(id), m.bucket(c2).contains(id)]
            c1 != c2 implies !(m.bucket(c1).contains(id) && m.bucket(c2).contains(id)) by {
            if m.bucket(c1).contains(id) && m.bucket(c2).contains(id) {
                lemma_cell_ids_mem(agents@, c1, m.res(), agents@.len() as int, id);
                lemma_cell_ids_mem(agents@, c2, m.res(), agents@.len() as int, id);
                let k1 = choose|k: int|
                    0 <= k < agents@.len() && #[trigger] agents@[k].id == id && cell3(
                        agents@[k].position@,
                        m.res(),
                    ) == c1;
                let k2 = choose|k: int|
                    0 <= k < agents@.len() && #[trigger] agents@[k].id == id && cell3(
                        agents@[k].position@,
                        m.res(),
                    ) == c2;
                assert(k1 == k2);
                assert(false);
            }
        }
        assert forall|c: (int, int, int)| no_dups(#[trigger] m.neighbour_cat(c, 27)) by {
            lemma_cat_no_dups(m, c, 27);
        }
    }
    let lookup = build_index(agents);
    let mut forces = compute_forces(agents, map, &lookup, cfg);
    predator_prey_forces(agents, map, &lookup, cfg, &mut forces);
    let ghost fviews = views_of(forces@);
    proof {
        assert(fviews == step_forces(agents@, *map, *cfg));
    }
    let mut out: Vec<(u64, Velocity)> = Vec::new();
    let mut i: usize = 0;
    while i < agents.len()
    invariant
        0 <= i <= agents@.len(),
        forces@.len() == agents@.len(),
        out@.len() == i as int,
        views_of(forces@) == fviews,
        forall|k: int| 0 <= k < i ==> (#[trigger] out@[k]).0 == agents@[k].id,
        forall|k: int|
            0 <= k < i ==> (#[trigger] out@[k]).1.value@ == integrate_spec(
                agents@[k].velocity@,
                fviews[k],
                dt_millis as int,
                cfg.min_speed as int,
                cfg.max_speed as int,
            ),
        forall|k: int|
            0 <= k < i ==> v3_len((#[trigger] out@[k]).1.value@) <= cfg.max_speed,
        forall|k: int|
            0 <= k < i && (#[trigger] out@[k]).1.value@ != crate::vec3::v3_zero() ==> v3_len(
                out@[k].1.value@,
            ) + 8 >= cfg.min_speed,
    decreases agents@.len() - i,
    {
        let b = agents[i];
        let f = forces[i];
        proof {
            assert(f@ == fviews[i as int]);
        }
        let v = integrate_velocity(&b.velocity, &f, dt_millis, cfg);
        out.push((b.id, Velocity::new(v)));
        i = i + 1;
    }
    out
}

/// Determinism of the force and integration phases: the step's result is
/// a mathematical function of the snapshot, the configuration and the
/// tick length alone.  Two grids that agree on resolution and contents
/// (as two rebuilds of the same snapshot always do) yield identical
/// per-agent velocities, regardless of how the evaluation was ordered or
/// chunked, since every executable stage is pinned to these functions.
pub proof fn lemma_step_deterministic(
    m1: BoidMap,
    m2: BoidMap,
    agents: Seq<Boid>,
    cfg: BoidConfig,
    dt: int,
)
    requires
        m1.res() == m2.res(),
        forall|c: (int, int, int)| #[trigger] m1.bucket(c) == m2.bucket(c),
    ensures
        step_velocities(agents, m1, cfg, dt) == step_velocities(agents, m2, cfg, dt),
{
    assert forall|c: (int, int, int), n: int| 0 <= n implies #[trigger] m1.neighbour_cat(c, n)
        == m2.neighbour_cat(c, n) by {
        lemma_cat_agree(m1, m2, c, n);
    }
    assert(base_forces(agents, m1, cfg) =~= base_forces(agents, m2, cfg));
    lemma_predator_fold_agree(
        m1,
        m2,
        agents,
        cfg,
        base_forces(agents, m1, cfg),
        agents.len() as int,
    );
    assert(step_velocities(agents, m1, cfg, dt) =~= step_velocities(agents, m2, cfg, dt));
}

/// Grids with equal buckets give equal neighbourhood concatenations.
proof fn lemma_cat_agree(m1: BoidMap, m2: BoidMap, c: (int, int, int), n: int)
    requires
        forall|cl: (int, int, int)| #[trigger] m1.bucket(cl) == m2.bucket(cl),
    ensures
        m1.neighbour_cat(c, n) == m2.neighbour_cat(c, n),
    decreases n,
{
    if n > 0 {
        lemma_cat_agree(m1, m2, c, n - 1);
    }
}

/// Grids with equal buckets and resolution give equal predator passes.
proof fn lemma_predator_fold_agree(
    m1: BoidMap,
    m2: BoidMap,
    agents: Seq<Boid>,
    cfg: BoidConfig,
    fs: Seq<(int, int, int)>,
    n: int,
)
    requires
        m1.res() == m2.res(),
        forall|cl: (int, int, int)| #[trigger] m1.bucket(cl) == m2.bucket(cl),
    ensures
        predator_fold(agents, m1, cfg, fs, n) == predator_fold(agents, m2, cfg, fs, n),
    decreases n,
{
    if n > 0 {
        lemma_predator_fold_agree(m1, m2, agents, cfg, fs, n - 1);
        if agents[n - 1].role == crate::agent::Role::Predator {
            lemma_cat_agree(m1, m2, cell3(agents[n - 1].position@, m1.res()), 27);
        }
    }
}

/// No false negatives at the pipeline level: after a rebuild, for any
/// radius `r` up to the grid resolution, every agent within squared
/// Euclidean distance `r * r` of a query position appears in the
/// candidate set queried for that position.  (False positives remain
/// possible; force computation re-checks exact distances.)
pub proof fn lemma_step_no_false_negatives(
    m: BoidMap,
    agents: Seq<Boid>,
    cfg: BoidConfig,
    p: (int, int, int),
    k: int,
    r: int,
)
    requires
        m.wf(),
        m.res() == grid_resolution(cfg),
        forall|c: (int, int, int)| #[trigger]
            m.bucket(c) == cell_ids(agents, c, grid_resolution(cfg), agents.len() as int),
        0 <= k < agents.len(),
        0 <= r <= m.res(),
        crate::vec3::v3_dist2(p, agents[k].position@) <= r * r,
    ensures
        m.neighbour_cat(cell3(p, m.res()), 27).contains(agents[k].id),
{
    crate::math::lemma_sq_le(r, m.res());
    let cq = cell3(agents[k].position@, m.res());
    lemma_cell_ids_mem(agents, cq, m.res(), agents.len() as int, agents[k].id);
    assert(m.bucket(cq).contains(agents[k].id));
    lemma_no_false_negatives(m, p, agents[k].position@, agents[k].id);
}

} // verus!
