//! Fixed-point three-dimensional vectors and their exact geometry:
//! squared magnitude, dot product, and "safe normalization" that scales a
//! vector to a requested length, mapping the zero vector to zero.

use vstd::prelude::*;
use crate::math::{
    div_trunc, div_ceil_away, sqrt_floor, isqrt, mul_div_trunc, mul_div_ceil,
    lemma_sqrt_floor_at_least,
};

verus! {

/// Bound on vector components accepted by the geometric helpers (2^62):
/// keeps squared magnitudes inside 128-bit arithmetic.
pub const GEOM_LIMIT: i64 = 0x4000_0000_0000_0000;

/// A vector of three fixed-point coordinates.
#[derive(Clone, Copy, PartialEq, Eq, Structural, Debug)]
pub struct Vec3I {
    pub x: i64,
    pub y: i64,
    pub z: i64,
}

impl View for Vec3I {
    type V = (int, int, int);

    open spec fn view(&self) -> (int, int, int) {
        (self.x as int, self.y as int, self.z as int)
    }
}

impl Vec3I {
    /// Builds the vector with the given components.
    pub fn new(x: i64, y: i64, z: i64) -> (r: Vec3I)
        ensures
            r@ == (x as int, y as int, z as int),
    {
        Vec3I { x, y, z }
    }

    /// The zero vector.
    pub fn zero() -> (r: Vec3I)
        ensures
            r@ == v3_zero(),
    {
        Vec3I { x: 0, y: 0, z: 0 }
    }
}

/// The zero vector.
pub open spec fn v3_zero() -> (int, int, int) {
    (0, 0, 0)
}

/// Componentwise sum.
pub open spec fn v3_add(a: (int, int, int), b: (int, int, int)) -> (int, int, int) {
    (a.0 + b.0, a.1 + b.1, a.2 + b.2)
}

/// Componentwise difference.
pub open spec fn v3_sub(a: (int, int, int), b: (int, int, int)) -> (int, int, int) {
    (a.0 - b.0, a.1 - b.1, a.2 - b.2)
}

/// Squared Euclidean magnitude.
pub open spec fn v3_mag2(a: (int, int, int)) -> int {
    a.0 * a.0 + a.1 * a.1 + a.2 * a.2
}

/// Dot product.
pub open spec fn v3_dot(a: (int, int, int), b: (int, int, int)) -> int {
    a.0 * b.0 + a.1 * b.1 + a.2 * b.2
}

/// Squared distance between two points.
pub open spec fn v3_dist2(a: (int, int, int), b: (int, int, int)) -> int {
    v3_mag2(v3_sub(a, b))
}

/// Every component lies in `[-b, b]`.
pub open spec fn v3_in_bounds(a: (int, int, int), b: int) -> bool {
    &&& -b <= a.0 <= b
    &&& -b <= a.1 <= b
    &&& -b <= a.2 <= b
}

/// Integer length: the floor of the Euclidean magnitude.
pub open spec fn v3_len(a: (int, int, int)) -> int {
    sqrt_floor(v3_mag2(a) as nat) as int
}

/// The vector rescaled to length (at most) `k`, components rounded toward
/// zero; the zero vector stays zero.
pub open spec fn v3_scale_to(a: (int, int, int), k: int) -> (int, int, int) {
    let m = v3_len(a);
    if m == 0 {
        (0, 0, 0)
    } else {
        (div_trunc(a.0 * k, m), div_trunc(a.1 * k, m), div_trunc(a.2 * k, m))
    }
}

/// The vector rescaled to length (at least) `k`, components rounded away
/// from zero; the zero vector stays zero.
pub open spec fn v3_scale_to_ceil(a: (int, int, int), k: int) -> (int, int, int) {
    let m = v3_len(a);
    if m == 0 {
        (0, 0, 0)
    } else {
        (div_ceil_away(a.0 * k, m), div_ceil_away(a.1 * k, m), div_ceil_away(a.2 * k, m))
    }
}

/// A squared magnitude is never negative.
pub proof fn lemma_mag2_nonneg(a: (int, int, int))
    ensures
        v3_mag2(a) >= 0,
        a == v3_zero() ==> v3_mag2(a) == 0,
        a != v3_zero() ==> v3_mag2(a) > 0,
{
    let m = v3_mag2(a);
    assert(a.0 * a.0 >= 0 && a.1 * a.1 >= 0 && a.2 * a.2 >= 0) by (nonlinear_arith);
    if a != v3_zero() {
        assert(a.0 != 0 ==> a.0 * a.0 > 0) by (nonlinear_arith);
        assert(a.1 != 0 ==> a.1 * a.1 > 0) by (nonlinear_arith);
        assert(a.2 != 0 ==> a.2 * a.2 > 0) by (nonlinear_arith);
    }
}

/// No component exceeds the integer length.
pub proof fn lemma_component_le_len(a: (int, int, int))
    ensures
        -v3_len(a) <= a.0 <= v3_len(a),
        -v3_len(a) <= a.1 <= v3_len(a),
        -v3_len(a) <= a.2 <= v3_len(a),
{
    lemma_mag2_nonneg(a);
    let m2 = v3_mag2(a) as nat;
    let a0 = if a.0 >= 0 { a.0 } else { -a.0 };
    let a1 = if a.1 >= 0 { a.1 } else { -a.1 };
    let a2 = if a.2 >= 0 { a.2 } else { -a.2 };
    assert(a0 * a0 <= m2 && a1 * a1 <= m2 && a2 * a2 <= m2) by (nonlinear_arith)
        requires
            m2 == a.0 * a.0 + a.1 * a.1 + a.2 * a.2,
            a0 == (if a.0 >= 0 { a.0 } else { -a.0 }),
            a1 == (if a.1 >= 0 { a.1 } else { -a.1 }),
            a2 == (if a.2 >= 0 { a.2 } else { -a.2 }),
    ;
    lemma_sqrt_floor_at_least(m2, a0 as nat);
    lemma_sqrt_floor_at_least(m2, a1 as nat);
    lemma_sqrt_floor_at_least(m2, a2 as nat);
}

/// Componentwise sum; the caller guarantees the sums fit.
pub fn v_add(a: &Vec3I, b: &Vec3I) -> (r: Vec3I)
    requires
        i64::MIN <= a@.0 + b@.0 <= i64::MAX,
        i64::MIN <= a@.1 + b@.1 <= i64::MAX,
        i64::MIN <= a@.2 + b@.2 <= i64::MAX,
    ensures
        r@ == v3_add(a@, b@),
{
    Vec3I { x: a.x + b.x, y: a.y + b.y, z: a.z + b.z }
}

/// Componentwise difference; the caller guarantees the differences fit.
pub fn v_sub(a: &Vec3I, b: &Vec3I) -> (r: Vec3I)
    requires
        i64::MIN <= a@.0 - b@.0 <= i64::MAX,
        i64::MIN <= a@.1 - b@.1 <= i64::MAX,
        i64::MIN <= a@.2 - b@.2 <= i64::MAX,
    ensures
        r@ == v3_sub(a@, b@),
{
    Vec3I { x: a.x - b.x, y: a.y - b.y, z: a.z - b.z }
}

/// Exact squared magnitude.
pub fn mag2_of(v: &Vec3I) -> (m: u128)
    requires
        v3_in_bounds(v@, GEOM_LIMIT as int),
    ensures
        m as int == v3_mag2(v@),
        m < 0x4000_0000_0000_0000_0000_0000_0000_0000u128,
{
    proof {
        let x = v.x as int;
        let y = v.y as int;
        let z = v.z as int;
        assert(0 <= x * x <= 0x1000_0000_0000_0000_0000_0000_0000_0000 && 0 <= y * y
            <= 0x1000_0000_0000_0000_0000_0000_0000_0000 && 0 <= z * z
            <= 0x1000_0000_0000_0000_0000_0000_0000_0000) by (nonlinear_arith)
            requires
                -0x4000_0000_0000_0000 <= x <= 0x4000_0000_0000_0000,
                -0x4000_0000_0000_0000 <= y <= 0x4000_0000_0000_0000,
                -0x4000_0000_0000_0000 <= z <= 0x4000_0000_0000_0000,
        ;
    }
    let xx: i128 = (v.x as i128) * (v.x as i128);
    let yy: i128 = (v.y as i128) * (v.y as i128);
    let zz: i128 = (v.z as i128) * (v.z as i128);
    (xx + yy + zz) as u128
}

/// Exact dot product.
pub fn dot_of(a: &Vec3I, b: &Vec3I) -> (d: i128)
    requires
        v3_in_bounds(a@, GEOM_LIMIT as int),
        v3_in_bounds(b@, GEOM_LIMIT as int),
    ensures
        d as int == v3_dot(a@, b@),
        -0x4000_0000_0000_0000_0000_0000_0000_0000 <= d as int
            <= 0x4000_0000_0000_0000_0000_0000_0000_0000,
{
    proof {
        let x0 = a@.0;
        let y0 = a@.1;
        let z0 = a@.2;
        let x1 = b@.0;
        let y1 = b@.1;
        let z1 = b@.2;
        assert(-0x1000_0000_0000_0000_0000_0000_0000_0000 <= x0 * x1
            <= 0x1000_0000_0000_0000_0000_0000_0000_0000
            && -0x1000_0000_0000_0000_0000_0000_0000_0000 <= y0 * y1
            <= 0x1000_0000_0000_0000_0000_0000_0000_0000
            && -0x1000_0000_0000_0000_0000_0000_0000_0000 <= z0 * z1
            <= 0x1000_0000_0000_0000_0000_0000_0000_0000) by (nonlinear_arith)
            requires
                -0x4000_0000_0000_0000 <= x0 <= 0x4000_0000_0000_0000,
                -0x4000_0000_0000_0000 <= y0 <= 0x4000_0000_0000_0000,
                -0x4000_0000_0000_0000 <= z0 <= 0x4000_0000_0000_0000,
                -0x4000_0000_0000_0000 <= x1 <= 0x4000_0000_0000_0000,
                -0x4000_0000_0000_0000 <= y1 <= 0x4000_0000_0000_0000,
                -0x4000_0000_0000_0000 <= z1 <= 0x4000_0000_0000_0000,
        ;
    }
    let xx: i128 = (a.x as i128) * (b.x as i128);
    let yy: i128 = (a.y as i128) * (b.y as i128);
    let zz: i128 = (a.z as i128) * (b.z as i128);
    xx + yy + zz
}

/// Exact squared distance between two points.
pub fn dist2_of(a: &Vec3I, b: &Vec3I) -> (d: u128)
    requires
        v3_in_bounds(a@, 0x2000_0000_0000_0000),
        v3_in_bounds(b@, 0x2000_0000_0000_0000),
    ensures
        d as int == v3_dist2(a@, b@),
        d < 0x4000_0000_0000_0000_0000_0000_0000_0000u128,
{
    let diff = v_sub(a, b);
    mag2_of(&diff)
}

/// Rescales `v` to length (at most) `k`, rounding toward zero; the zero
/// vector stays zero.  The result's components never exceed `k`.
pub fn scale_to(v: &Vec3I, k: i64) -> (r: Vec3I)
    requires
        v3_in_bounds(v@, GEOM_LIMIT as int),
        0 <= k <= GEOM_LIMIT as int,
    ensures
        r@ == v3_scale_to(v@, k as int),
        v3_in_bounds(r@, k as int),
{
    let m2 = mag2_of(v);
    let m = isqrt(m2);
    proof {
        lemma_component_le_len(v@);
    }
    if m == 0 {
        Vec3I { x: 0, y: 0, z: 0 }
    } else {
        Vec3I {
            x: mul_div_trunc(v.x, k, m),
            y: mul_div_trunc(v.y, k, m),
            z: mul_div_trunc(v.z, k, m),
        }
    }
}

/// Rescales `v` to length (at least) `k`, rounding away from zero; the
/// zero vector stays zero.  The result's components never exceed `k`.
pub fn scale_to_ceil(v: &Vec3I, k: i64) -> (r: Vec3I)
    requires
        v3_in_bounds(v@, GEOM_LIMIT as int),
        0 <= k <= GEOM_LIMIT as int,
    ensures
        r@ == v3_scale_to_ceil(v@, k as int),
        v3_in_bounds(r@, k as int),
{
    let m2 = mag2_of(v);
    let m = isqrt(m2);
    proof {
        lemma_component_le_len(v@);
    }
    if m == 0 {
        Vec3I { x: 0, y: 0, z: 0 }
    } else {
        Vec3I {
            x: mul_div_ceil(v.x, k, m),
            y: mul_div_ceil(v.y, k, m),
            z: mul_div_ceil(v.z, k, m),
        }
    }
}

} // verus!
