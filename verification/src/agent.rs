//! Agent records: the per-boid snapshot the pipeline reads, the flock
//! grouping, the predator/prey role, and the velocity wrapper handed back
//! to the caller.

use vstd::prelude::*;
use crate::vec3::{Vec3I, v3_in_bounds};
use crate::COORD_LIMIT;

verus! {

/// Whether an agent hunts (`Predator`) or is hunted (`Prey`).
#[derive(Clone, Copy, PartialEq, Eq, Structural, Debug)]
pub enum Role {
    Prey,
    Predator,
}

/// The flock an agent belongs to: agents align and cohere only with the
/// same `identity`; `centre` is an externally supplied anchor point the
/// flock is drawn toward.
#[derive(Clone, Copy, PartialEq, Eq, Structural, Debug)]
pub struct Flock {
    pub identity: u64,
    pub centre: Vec3I,
}

/// One agent's snapshot for the current tick.
#[derive(Clone, Copy, PartialEq, Eq, Structural, Debug)]
pub struct Boid {
    /// Stable identity, unique within a snapshot.
    pub id: u64,
    pub position: Vec3I,
    pub velocity: Vec3I,
    pub flock: Flock,
    pub role: Role,
}

/// A velocity vector, as returned by the integrator.
#[derive(Clone, Copy, PartialEq, Eq, Structural, Debug)]
pub struct Velocity {
    pub value: Vec3I,
}

impl Velocity {
    /// Wraps a vector as a velocity.
    pub fn new(value: Vec3I) -> (r: Velocity)
        ensures
            r.value == value,
    {
        Velocity { value }
    }
}

/// An agent's coordinates all lie within the fixed-point world bounds.
pub open spec fn boid_ok(b: Boid) -> bool {
    &&& v3_in_bounds(b.position@, COORD_LIMIT as int)
    &&& v3_in_bounds(b.velocity@, COORD_LIMIT as int)
    &&& v3_in_bounds(b.flock.centre@, COORD_LIMIT as int)
}

/// Every agent of the snapshot is within bounds.
pub open spec fn boids_ok(s: Seq<Boid>) -> bool {
    forall|i: int| 0 <= i < s.len() ==> boid_ok(#[trigger] s[i])
}

/// No two agents share an identity.
pub open spec fn distinct_ids(s: Seq<Boid>) -> bool {
    forall|i: int, j: int| 0 <= i < j < s.len() ==> s[i].id != s[j].id
}

/// Index of the first agent with the given identity, `-1 ` if absent.
pub open spec fn agent_index(s: Seq<Boid>, id: u64) -> int
    decreases s.len(),
{
    if s.len() == 0 {
        -1
    } else if s[0].id == id {
        0
    } else {
        let r = agent_index(s.drop_first(), id);
        if r < 0 {
            -1
        } else {
            r + 1
        }
    }
}

/// `agent_index` finds an agent exactly when one carries the identity.
pub proof fn lemma_agent_index(s: Seq<Boid>, id: u64)
    ensures
        agent_index(s, id) >= 0 ==> 0 <= agent_index(s, id) < s.len() && s[agent_index(s, id)].id
            == id,
        agent_index(s, id) < 0 ==> forall|i: int| 0 <= i < s.len() ==> s[i].id != id,
    decreases s.len(),
{
    if s.len() > 0 && s[0].id != id {
        lemma_agent_index(s.drop_first(), id);
        let r = agent_index(s.drop_first(), id);
        if r >= 0 {
            assert(s.drop_first()[r] == s[r + 1]);
        } else {
            assert forall|i: int| 0 <= i < s.len() implies s[i].id != id by {
                if i >= 1 {
                    assert(s.drop_first()[i - 1] == s[i]);
                }
            }
        }
    }
}

/// With distinct identities, `agent_index` inverts indexing.
pub proof fn lemma_agent_index_of(s: Seq<Boid>, k: int)
    requires
        distinct_ids(s),
        0 <= k < s.len(),
    ensures
        agent_index(s, s[k].id) == k,
    decreases s.len(),
{
    if k == 0 {
    } else {
        assert(s[0].id != s[k].id);
        assert(distinct_ids(s.drop_first())) by {
            assert(forall|i: int|
                0 <= i < s.len() - 1 ==> #[trigger] s.drop_first()[i] == s[i + 1]);
        }
        lemma_agent_index_of(s.drop_first(), k - 1);
        assert(s.drop_first()[k - 1] == s[k]);
    }
}

/// Runtime check of `boid_ok`, for callers that must establish it.
pub fn boid_within_limits(b: &Boid) -> (r: bool)
    ensures
        r == boid_ok(*b),
{
    let l = COORD_LIMIT;
    -l <= b.position.x && b.position.x <= l && -l <= b.position.y && b.position.y <= l
        && -l <= b.position.z && b.position.z <= l && -l <= b.velocity.x && b.velocity.x <= l
        && -l <= b.velocity.y && b.velocity.y <= l && -l <= b.velocity.z && b.velocity.z <= l
        && -l <= b.flock.centre.x && b.flock.centre.x <= l && -l <= b.flock.centre.y
        && b.flock.centre.y <= l && -l <= b.flock.centre.z && b.flock.centre.z <= l
}

} // verus!
