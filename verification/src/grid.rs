//! The uniform spatial bucket grid ("boid map"): positions are floored
//! componentwise by the resolution into integer cells, each cell holds the
//! identities inserted into it, and a neighbour query returns the union of
//! the 27 cells around a position.  Flooring rounds toward negative
//! infinity, so cells tile space evenly across the origin.

use vstd::prelude::*;
use std::collections::HashMap;
use crate::math::lemma_div_ceil_close;
use crate::vec3::{Vec3I, v3_add, v3_in_bounds, v3_dist2};
use crate::{COORD_LIMIT, MAX_AGENTS};
use vstd::arithmetic::div_mod::{
    lemma_div_is_ordered, lemma_div_nonincreasing, lemma_div_plus_one, lemma_div_minus_one,
    lemma_fundamental_div_mod_converse,
};

verus! {

broadcast use vstd::std_specs::hash::group_hash_axioms;

/// Floor of `x / res`: the grid cell a scalar coordinate falls in.
/// (Verus specification division by a positive divisor is already the
/// flooring division.)
pub open spec fn cell_coord(x: int, res: int) -> int
    recommends
        res >= 1,
{
    x / res
}

/// The cell triple a position falls in.
pub open spec fn cell3(p: (int, int, int), res: int) -> (int, int, int) {
    (p.0 / res, p.1 / res, p.2 / res)
}

/// Cells a key can be packed for: componentwise within `+-(2^31 - 1)`.
pub open spec fn valid_cell(c: (int, int, int)) -> bool {
    v3_in_bounds(c, 0x7FFF_FFFF)
}

/// A cell triple packed into one integer, base 2^32 with offset 2^31.
pub open spec fn pack_spec(c: (int, int, int)) -> int {
    (c.0 + 0x8000_0000) + (c.1 + 0x8000_0000) * 0x1_0000_0000 + (c.2 + 0x8000_0000)
        * 0x1_0000_0000_0000_0000
}

/// A packed cell key fits in `u128`.
pub proof fn lemma_pack_range(c: (int, int, int))
    requires
        valid_cell(c),
    ensures
        0 <= pack_spec(c) < 0x1_0000_0000_0000_0000_0000_0000,
{
}

/// Packing is injective on valid cells.
pub proof fn lemma_pack_injective(a: (int, int, int), b: (int, int, int))
    requires
        valid_cell(a),
        valid_cell(b),
        pack_spec(a) == pack_spec(b),
    ensures
        a == b,
{
    let base: int = 0x1_0000_0000;
    let off: int = 0x8000_0000;
    let qa = (a.1 + off) + base * (a.2 + off);
    let qb = (b.1 + off) + base * (b.2 + off);
    assert(pack_spec(a) == base * qa + (a.0 + off)) by (nonlinear_arith)
        requires
            qa == (a.1 + off) + base * (a.2 + off),
            base == 0x1_0000_0000,
            pack_spec(a) == (a.0 + off) + (a.1 + off) * base + (a.2 + off) * (base * base),
            off == 0x8000_0000,
    ;
    assert(pack_spec(b) == base * qb + (b.0 + off)) by (nonlinear_arith)
        requires
            qb == (b.1 + off) + base * (b.2 + off),
            base == 0x1_0000_0000,
            pack_spec(b) == (b.0 + off) + (b.1 + off) * base + (b.2 + off) * (base * base),
            off == 0x8000_0000,
    ;
    lemma_fundamental_div_mod_converse(pack_spec(a), base, qa, a.0 + off);
    lemma_fundamental_div_mod_converse(pack_spec(b), base, qb, b.0 + off);
    assert(a.0 == b.0 && qa == qb);
    assert(qa == base * (a.2 + off) + (a.1 + off)) by (nonlinear_arith)
        requires
            qa == (a.1 + off) + base * (a.2 + off),
    ;
    assert(qb == base * (b.2 + off) + (b.1 + off)) by (nonlinear_arith)
        requires
            qb == (b.1 + off) + base * (b.2 + off),
    ;
    lemma_fundamental_div_mod_converse(qa, base, a.2 + off, a.1 + off);
    lemma_fundamental_div_mod_converse(qb, base, b.2 + off, b.1 + off);
}

/// Packs a cell triple into a map key.
pub fn pack_key(cx: i64, cy: i64, cz: i64) -> (k: u128)
    requires
        valid_cell((cx as int, cy as int, cz as int)),
    ensures
        k as int == pack_spec((cx as int, cy as int, cz as int)),
{
    let f0 = (cx + 0x8000_0000i64) as u128;
    let f1 = (cy + 0x8000_0000i64) as u128;
    let f2 = (cz + 0x8000_0000i64) as u128;
    f0 + f1 * 0x1_0000_0000u128 + f2 * 0x1_0000_0000_0000_0000u128
}

/// Floors a coordinate by the resolution, rounding toward negative
/// infinity: `-1 <= x < 0` already lands in cell `-1`, never in cell `0`.
pub fn cell_of(x: i64, res: i64) -> (c: i64)
    requires
        1 <= res <= COORD_LIMIT,
        -COORD_LIMIT <= x as int <= COORD_LIMIT,
    ensures
        c as int == cell_coord(x as int, res as int),
        -COORD_LIMIT <= c as int <= COORD_LIMIT,
{
    if x >= 0 {
        proof {
            lemma_div_nonincreasing(x as int, res as int);
            vstd::arithmetic::div_mod::lemma_div_pos_is_pos(x as int, res as int);
        }
        ((x as u64) / (res as u64)) as i64
    } else {
        let a = (-x) as u64;
        let q = (a + (res as u64) - 1) / (res as u64);
        proof {
            let ai = a as int;
            let ri = res as int;
            let qi = q as int;
            lemma_div_ceil_close(ai, ri);
            assert(qi == (ai + ri - 1) / ri);
            assert(ai <= qi * ri < ai + ri);
            assert(1 <= qi <= ai) by (nonlinear_arith)
                requires
                    ai <= qi * ri < ai + ri,
                    ri >= 1,
                    ai >= 1,
            ;
            assert(ri * (-qi) == -(qi * ri)) by (nonlinear_arith);
            lemma_fundamental_div_mod_converse(x as int, ri, -qi, qi * ri - ai);
        }
        -(q as i64)
    }
}

/// The offset of the `n`-th cell of the 3x3x3 neighbourhood, for
/// `0 <= n < 27`; each component lies in `{-1, 0, 1}`.
pub open spec fn cell_offset(n: int) -> (int, int, int) {
    (n / 9 - 1, (n % 9) / 3 - 1, n % 3 - 1)
}

/// The spatial grid: a map from packed cells to the identities inserted
/// into them, the cell edge length, and how many identities it holds.
pub struct BoidMap {
    buckets: HashMap<u128, Vec<u64>>,
    resolution: i64,
    count: u64,
}

impl BoidMap {
    /// Cell edge length.
    pub closed spec fn res(self) -> int {
        self.resolution as int
    }

    /// Number of identities inserted since the last reset.
    pub closed spec fn size(self) -> int {
        self.count as int
    }

    /// The identities of a cell, in insertion order.
    pub closed spec fn bucket(self, c: (int, int, int)) -> Seq<u64> {
        if valid_cell(c) && self.buckets@.contains_key(pack_spec(c) as u128) {
            self.buckets@[pack_spec(c) as u128]@
        } else {
            Seq::<u64>::empty()
        }
    }

    /// Well-formedness: a usable resolution, a bounded population, and no
    /// bucket longer than the population.
    pub closed spec fn wf(self) -> bool {
        &&& 1 <= self.resolution <= COORD_LIMIT
        &&& self.count <= MAX_AGENTS
        &&& forall|k: u128|
            self.buckets@.contains_key(k) ==> (#[trigger] self.buckets@[k])@.len()
                <= self.count as int
    }

    /// The concatenation of the first `n` of the 27 neighbourhood buckets
    /// around cell `c`, in the fixed offset order.
    pub open spec fn neighbour_cat(self, c: (int, int, int), n: int) -> Seq<u64>
        decreases n,
    {
        if n <= 0 {
            Seq::<u64>::empty()
        } else {
            self.neighbour_cat(c, n - 1) + self.bucket(v3_add(c, cell_offset(n - 1)))
        }
    }

    /// An empty grid with resolution 1.
    pub fn new() -> (m: BoidMap)
        ensures
            m.wf(),
            m.res() == 1,
            m.size() == 0,
            forall|c: (int, int, int)| #[trigger] m.bucket(c) == Seq::<u64>::empty(),
    {
        BoidMap { buckets: HashMap::new(), resolution: 1, count: 0 }
    }

    /// Current cell edge length.
    pub fn resolution(&self) -> (r: i64)
        ensures
            r as int == self.res(),
    {
        self.resolution
    }

    /// Number of identities the grid holds.
    pub fn len(&self) -> (n: u64)
        ensures
            n as int == self.size(),
    {
        self.count
    }

    /// Empties every bucket; the resolution is kept.
    pub fn reset(&mut self)
        requires
            old(self).wf(),
        ensures
            final(self).wf(),
            final(self).res() == old(self).res(),
            final(self).size() == 0,
            forall|c: (int, int, int)| #[trigger] final(self).bucket(c) == Seq::<u64>::empty(),
    {
        self.buckets.clear();
        self.count = 0;
    }

    /// Changes the cell edge length; buckets are untouched.
    pub fn set_resolution(&mut self, res: i64)
        requires
            old(self).wf(),
            1 <= res <= COORD_LIMIT,
        ensures
            final(self).wf(),
            final(self).res() == res as int,
            final(self).size() == old(self).size(),
            forall|c: (int, int, int)| #[trigger] final(self).bucket(c) == old(self).bucket(c),
    {
        self.resolution = res;
    }

    /// The cell triple a position falls in, floored toward negative
    /// infinity componentwise.
    pub fn vec3_to_grid(&self, position: Vec3I) -> (c: (i64, i64, i64))
        requires
            self.wf(),
            v3_in_bounds(position@, COORD_LIMIT as int),
        ensures
            (c.0 as int, c.1 as int, c.2 as int) == cell3(position@, self.res()),
            valid_cell((c.0 as int, c.1 as int, c.2 as int)),
            -COORD_LIMIT <= c.0 as int <= COORD_LIMIT,
            -COORD_LIMIT <= c.1 as int <= COORD_LIMIT,
            -COORD_LIMIT <= c.2 as int <= COORD_LIMIT,
    {
        (
            cell_of(position.x, self.resolution),
            cell_of(position.y, self.resolution),
            cell_of(position.z, self.resolution),
        )
    }

    /// Appends an identity to the bucket of the cell its position falls
    /// in; every other bucket is untouched.
    pub fn add_boid(&mut self, boid: u64, position: Vec3I)
        requires
            old(self).wf(),
            v3_in_bounds(position@, COORD_LIMIT as int),
            old(self).size() < MAX_AGENTS,
        ensures
            final(self).wf(),
            final(self).res() == old(self).res(),
            final(self).size() == old(self).size() + 1,
            final(self).bucket(cell3(position@, old(self).res())) == old(self).bucket(
                cell3(position@, old(self).res()),
            ).push(boid),
            forall|c: (int, int, int)|
                c != cell3(position@, old(self).res()) ==> #[trigger] final(self).bucket(c) == old(
                    self,
                ).bucket(c),
    {
        let (cx, cy, cz) = self.vec3_to_grid(position);
        let key = pack_key(cx, cy, cz);
        let ghost target = cell3(position@, self.res());
        proof {
            lemma_pack_range(target);
        }
        let mut b = match self.buckets.remove(&key) {
            Some(b) => b,
            None => Vec::new(),
        };
        b.push(boid);
        self.buckets.insert(key, b);
        self.count = self.count + 1;
        proof {
            assert forall|c: (int, int, int)| c != target implies #[trigger] self.bucket(c)
                == old(self).bucket(c) by {
                if valid_cell(c) {
                    lemma_pack_range(c);
                    if pack_spec(c) as u128 == key {
                        lemma_pack_injective(c, target);
                        assert(false);
                    }
                }
            }
        }
    }

    /// The identities of the 27 cells around the position's cell, in the
    /// fixed cell order, each bucket in insertion order.  Callers must
    /// re-check exact distances: the result may hold agents farther away
    /// than the resolution, but misses none within it (see
    /// `lemma_no_false_negatives`).
    #[verifier::loop_isolation(false)]
    pub fn get_possible_neighbours(&self, position: Vec3I) -> (out: Vec<u64>)
        requires
            self.wf(),
            v3_in_bounds(position@, COORD_LIMIT as int),
        ensures
            out@ == self.neighbour_cat(cell3(position@, self.res()), 27),
            out@.len() <= 27 * self.size(),
    {
        let (cx, cy, cz) = self.vec3_to_grid(position);
        let ghost centre = cell3(position@, self.res());
        let mut out: Vec<u64> = Vec::new();
        let mut n: u64 = 0;
        while n < 27
        invariant
            0 <= n <= 27,
            out@ == self.neighbour_cat(centre, n as int),
            out@.len() <= (n as int) * self.size(),
        decreases 27 - n,
        {
            let dx = (n / 9) as i64 - 1;
            let dy = ((n % 9) / 3) as i64 - 1;
            let dz = (n % 3) as i64 - 1;
            proof {
                assert(n / 9 <= 2 && n % 9 <= 8 && (n % 9) / 3 <= 2 && n % 3 <= 2);
                assert((dx as int, dy as int, dz as int) == cell_offset(n as int));
            }
            let ncx = cx + dx;
            let ncy = cy + dy;
            let ncz = cz + dz;
            let ghost nc = v3_add(centre, cell_offset(n as int));
            let key = pack_key(ncx, ncy, ncz);
            proof {
                lemma_pack_range(nc);
            }
            let ghost len_before = out@.len() as int;
            match self.buckets.get(&key) {
                Some(b) => {
                    let mut i: usize = 0;
                    while i < b.len()
                    invariant
                        0 <= i <= b@.len(),
                        out@ == self.neighbour_cat(centre, n as int) + b@.subrange(0, i as int),
                    decreases b@.len() - i,
                    {
                        let v = b[i];
                        out.push(v);
                        proof {
                            assert(out@ =~= self.neighbour_cat(centre, n as int) + b@.subrange(
                                0,
                                i as int + 1,
                            ));
                        }
                        i = i + 1;
                    }
                    proof {
                        assert(b@.subrange(0, b@.len() as int) =~= b@);
                        assert(self.bucket(nc) == b@);
                    }
                }
                None => {
                    proof {
                        assert(self.bucket(nc) =~= Seq::<u64>::empty());
                        assert(out@ =~= self.neighbour_cat(centre, n as int) + self.bucket(nc));
                    }
                },
            }
            proof {
                assert(out@ == self.neighbour_cat(centre, n as int + 1));
                assert(out@.len() <= (n as int + 1) * self.size()) by (nonlinear_arith)
                    requires
                        out@.len() <= (n as int) * self.size() + self.size(),
                ;
            }
            n = n + 1;
        }
        out
    }
}

/// Everything in one neighbourhood bucket appears in the concatenation.
pub proof fn lemma_cat_contains(m: BoidMap, c: (int, int, int), n: int, k: int, id: u64)
    requires
        0 <= n < k,
        m.bucket(v3_add(c, cell_offset(n))).contains(id),
    ensures
        m.neighbour_cat(c, k).contains(id),
    decreases k,
{
    if n == k - 1 {
        let pre = m.neighbour_cat(c, k - 1);
        let b = m.bucket(v3_add(c, cell_offset(n)));
        let j = choose|j: int| 0 <= j < b.len() && b[j] == id;
        assert(m.neighbour_cat(c, k)[pre.len() + j] == id);
    } else {
        lemma_cat_contains(m, c, n, k - 1, id);
        let pre = m.neighbour_cat(c, k - 1);
        let j = choose|j: int| 0 <= j < pre.len() && pre[j] == id;
        assert(m.neighbour_cat(c, k)[j] == id);
    }
}

/// Two coordinates at most `res` apart land in the same or an adjacent
/// cell.
pub proof fn lemma_cell_within_one(p: int, q: int, res: int)
    requires
        res >= 1,
        -res <= q - p <= res,
    ensures
        p / res - 1 <= q / res <= p / res + 1,
{
    lemma_div_is_ordered(p - res, q, res);
    lemma_div_is_ordered(q, p + res, res);
    lemma_div_minus_one(p, res);
    lemma_div_plus_one(p, res);
    assert((-res + p) / res == p / res - 1);
    assert((res + p) / res == p / res + 1);
}

/// A squared distance within `r * r` bounds every axis difference by `r`.
pub proof fn lemma_dist_axis(p: (int, int, int), q: (int, int, int), r: int)
    requires
        v3_dist2(p, q) <= r * r,
        r >= 0,
    ensures
        -r <= q.0 - p.0 <= r,
        -r <= q.1 - p.1 <= r,
        -r <= q.2 - p.2 <= r,
{
    let dx = p.0 - q.0;
    let dy = p.1 - q.1;
    let dz = p.2 - q.2;
    assert(-r <= dx <= r && -r <= dy <= r && -r <= dz <= r) by (nonlinear_arith)
        requires
            dx * dx + dy * dy + dz * dz <= r * r,
            r >= 0,
    ;
}

/// No false negatives: an identity filed under a position within the
/// resolution of a query position (by Euclidean distance) is always part
/// of the neighbourhood concatenation the query returns.
pub proof fn lemma_no_false_negatives(
    m: BoidMap,
    p: (int, int, int),
    q: (int, int, int),
    id: u64,
)
    requires
        m.wf(),
        v3_dist2(p, q) <= m.res() * m.res(),
        m.bucket(cell3(q, m.res())).contains(id),
    ensures
        m.neighbour_cat(cell3(p, m.res()), 27).contains(id),
{
    let res = m.res();
    lemma_dist_axis(p, q, res);
    lemma_cell_within_one(p.0, q.0, res);
    lemma_cell_within_one(p.1, q.1, res);
    lemma_cell_within_one(p.2, q.2, res);
    let cp = cell3(p, res);
    let cq = cell3(q, res);
    let ax = cq.0 - cp.0 + 1;
    let ay = cq.1 - cp.1 + 1;
    let az = cq.2 - cp.2 + 1;
    let n = ax * 9 + ay * 3 + az;
    assert(0 <= ax <= 2 && 0 <= ay <= 2 && 0 <= az <= 2);
    assert(0 <= n < 27);
    lemma_fundamental_div_mod_converse(n, 9, ax, ay * 3 + az);
    lemma_fundamental_div_mod_converse(ay * 3 + az, 3, ay, az);
    lemma_fundamental_div_mod_converse(n, 3, ax * 3 + ay, az);
    assert(cell_offset(n) == (cq.0 - cp.0, cq.1 - cp.1, cq.2 - cp.2));
    assert(v3_add(cp, cell_offset(n)) == cq);
    lemma_cat_contains(m, cp, n, 27, id);
}

/// What well-formedness guarantees about the grid's scalars.
pub proof fn lemma_wf_bounds(m: BoidMap)
    requires
        m.wf(),
    ensures
        1 <= m.res() <= COORD_LIMIT,
        0 <= m.size() <= MAX_AGENTS,
{
}

/// No identity occurs twice.
pub open spec fn no_dups(s: Seq<u64>) -> bool {
    forall|i: int, j: int| 0 <= i < j < s.len() ==> s[i] != s[j]
}

/// The 27 neighbourhood offsets are pairwise distinct.
pub proof fn lemma_offset_injective(u: int, n: int)
    requires
        0 <= u < 27,
        0 <= n < 27,
        u != n,
    ensures
        cell_offset(u) != cell_offset(n),
{
    lemma_offset_decompose(u);
    lemma_offset_decompose(n);
}

/// Any `0 <= t < 27` is recovered from its neighbourhood offset.
proof fn lemma_offset_decompose(t: int)
    requires
        0 <= t < 27,
    ensures
        t == 9 * (t / 9) + 3 * ((t % 9) / 3) + (t % 9) % 3,
        t % 3 == (t % 9) % 3,
{
    vstd::arithmetic::div_mod::lemma_fundamental_div_mod(t, 9);
    vstd::arithmetic::div_mod::lemma_mod_division_less_than_divisor(t, 9);
    let r9 = t % 9;
    vstd::arithmetic::div_mod::lemma_fundamental_div_mod(r9, 3);
    vstd::arithmetic::div_mod::lemma_mod_division_less_than_divisor(r9, 3);
    let q = t / 9;
    vstd::arithmetic::div_mod::lemma_mod_multiples_vanish(3 * q, r9, 3);
    assert(9 * q == 3 * (3 * q)) by (nonlinear_arith);
    assert(t == 3 * (3 * q) + r9);
    assert(t % 3 == r9 % 3);
}

/// Everything in the neighbourhood concatenation comes from one of its
/// buckets.
pub proof fn lemma_cat_mem(m: BoidMap, c: (int, int, int), n: int, id: u64)
    requires
        0 <= n,
        m.neighbour_cat(c, n).contains(id),
    ensures
        exists|u: int|
            0 <= u < n && #[trigger] m.bucket(v3_add(c, cell_offset(u))).contains(id),
    decreases n,
{
    let pre = m.neighbour_cat(c, n - 1);
    let b = m.bucket(v3_add(c, cell_offset(n - 1)));
    let i = choose|i: int| 0 <= i < m.neighbour_cat(c, n).len() && m.neighbour_cat(c, n)[i] == id;
    if i < pre.len() {
        assert(pre[i] == id);
        lemma_cat_mem(m, c, n - 1, id);
    } else {
        assert(b[i - pre.len()] == id);
        assert(m.bucket(v3_add(c, cell_offset(n - 1))).contains(id));
    }
}

/// If every bucket is duplicate-free and no identity sits in two cells,
/// a neighbourhood concatenation is duplicate-free.
pub proof fn lemma_cat_no_dups(m: BoidMap, c: (int, int, int), n: int)
    requires
        0 <= n <= 27,
        forall|cl: (int, int, int)| no_dups(#[trigger] m.bucket(cl)),
        forall|c1: (int, int, int), c2: (int, int, int), id: u64|
            #![trigger m.bucket(c1).contains(id), m.bucket(c2).contains(id)]
            c1 != c2 ==> !(m.bucket(c1).contains(id) && m.bucket(c2).contains(id)),
    ensures
        no_dups(m.neighbour_cat(c, n)),
    decreases n,
{
    if n > 0 {
        lemma_cat_no_dups(m, c, n - 1);
        let pre = m.neighbour_cat(c, n - 1);
        let b = m.bucket(v3_add(c, cell_offset(n - 1)));
        let cat = m.neighbour_cat(c, n);
        assert forall|i: int, j: int| 0 <= i < j < cat.len() implies cat[i] != cat[j] by {
            if i < pre.len() && j < pre.len() {
                assert(cat[i] == pre[i] && cat[j] == pre[j]);
            } else if i >= pre.len() && j >= pre.len() {
                assert(cat[i] == b[i - pre.len()] && cat[j] == b[j - pre.len()]);
            } else {
                assert(cat[i] == pre[i] && cat[j] == b[j - pre.len()]);
                if cat[i] == cat[j] {
                    let id = cat[i];
                    assert(pre.contains(id));
                    lemma_cat_mem(m, c, n - 1, id);
                    let u = choose|u: int|
                        0 <= u < n - 1 && #[trigger] m.bucket(
                            v3_add(c, cell_offset(u)),
                        ).contains(id);
                    lemma_offset_injective(u, n - 1);
                    assert(v3_add(c, cell_offset(u)) != v3_add(c, cell_offset(n - 1)));
                    assert(b.contains(id));
                    assert(false);
                }
            }
        }
    }
}

impl Default for BoidMap {
    /// An empty grid with resolution 1.
    fn default() -> (m: BoidMap)
        ensures
            m.wf(),
            m.res() == 1,
            m.size() == 0,
            forall|c: (int, int, int)| #[trigger] m.bucket(c) == Seq::<u64>::empty(),
    {
        BoidMap::new()
    }
}

} // verus!
