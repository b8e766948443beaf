//! Scalar fixed-point arithmetic: truncating and away-from-zero division,
//! and an exact integer square root.

use vstd::prelude::*;
use vstd::arithmetic::div_mod::{
    lemma_basic_div, lemma_div_is_ordered, lemma_div_by_multiple, lemma_fundamental_div_mod,
    lemma_fundamental_div_mod_converse, lemma_mod_division_less_than_divisor,
};
use vstd::arithmetic::mul::{lemma_mul_inequality, lemma_mul_is_commutative};

verus! {

/// Quotient of `a / d` rounded toward zero (`d >= 1`).
pub open spec fn div_trunc(a: int, d: int) -> int
    recommends
        d >= 1,
{
    if a >= 0 {
        a / d
    } else {
        -((-a) / d)
    }
}

/// Quotient of `a / d` rounded away from zero (`d >= 1`).
pub open spec fn div_ceil_away(a: int, d: int) -> int
    recommends
        d >= 1,
{
    if a >= 0 {
        (a + d - 1) / d
    } else {
        -((-a + d - 1) / d)
    }
}

/// `n * n`, signed: negative inputs give the negated square, so the
/// function is strictly monotone over all of `int`.
pub open spec fn signed_square(n: int) -> int {
    if n >= 0 {
        n * n
    } else {
        -(n * n)
    }
}

/// Largest `r` with `r * r <= n`.
pub open spec fn sqrt_floor(n: nat) -> nat
    decreases n,
{
    if n == 0 {
        0
    } else {
        let r = sqrt_floor((n - 1) as nat);
        if (r + 1) * (r + 1) <= n {
            r + 1
        } else {
            r
        }
    }
}

/// Squaring preserves order on non-negative integers.
pub proof fn lemma_sq_le(a: int, b: int)
    requires
        0 <= a <= b,
    ensures
        a * a <= b * b,
{
    assert(a * a <= b * b) by (nonlinear_arith)
        requires
            0 <= a <= b,
    ;
}

/// `sqrt_floor` really is the floor of the square root.
pub proof fn lemma_sqrt_floor(n: nat)
    ensures
        sqrt_floor(n) * sqrt_floor(n) <= n,
        n < (sqrt_floor(n) + 1) * (sqrt_floor(n) + 1),
    decreases n,
{
    let s = sqrt_floor(n);
    if n == 0 {
        assert(s == 0);
        assert(s * s <= n && n < (s + 1) * (s + 1)) by (nonlinear_arith)
            requires
                s == 0,
                n == 0,
        ;
    } else {
        lemma_sqrt_floor((n - 1) as nat);
        let r = sqrt_floor((n - 1) as nat);
        assert(r * r <= n - 1);
        assert(n - 1 < (r + 1) * (r + 1));
        if (r + 1) * (r + 1) <= n {
            assert(s == r + 1);
            assert(s * s <= n && n < (s + 1) * (s + 1)) by (nonlinear_arith)
                requires
                    s == r + 1,
                    (r + 1) * (r + 1) <= n,
                    n - 1 < (r + 1) * (r + 1),
                    r >= 0,
            ;
        } else {
            assert(s == r);
            assert(s * s <= n && n < (s + 1) * (s + 1)) by (nonlinear_arith)
                requires
                    s == r,
                    r * r <= n - 1,
                    n < (r + 1) * (r + 1),
                    r >= 0,
                    n >= 1,
            ;
        }
    }
}

/// Any `r` whose square brackets `n` equals `sqrt_floor(n)`.
pub proof fn lemma_sqrt_floor_unique(n: nat, r: nat)
    requires
        r * r <= n,
        n < (r + 1) * (r + 1),
    ensures
        r == sqrt_floor(n),
{
    lemma_sqrt_floor(n);
    let s = sqrt_floor(n);
    if r < s {
        lemma_sq_le(r as int + 1, s as int);
        assert(false);
    }
    if s < r {
        lemma_sq_le(s as int + 1, r as int);
        assert(false);
    }
}

/// A perfect-square lower bound transfers to `sqrt_floor`.
pub proof fn lemma_sqrt_floor_at_least(n: nat, r: nat)
    requires
        r * r <= n,
    ensures
        sqrt_floor(n) >= r,
{
    lemma_sqrt_floor(n);
    if sqrt_floor(n) < r {
        lemma_sq_le(sqrt_floor(n) as int + 1, r as int);
        assert(false);
    }
}

/// A strict perfect-square upper bound transfers to `sqrt_floor`.
pub proof fn lemma_sqrt_floor_below(n: nat, r: nat)
    requires
        n < (r + 1) * (r + 1),
    ensures
        sqrt_floor(n) <= r,
{
    lemma_sqrt_floor(n);
    if r < sqrt_floor(n) {
        lemma_sq_le(r as int + 1, sqrt_floor(n) as int);
        assert(false);
    }
}

/// Exact integer square root by bisection.
#[verifier::loop_isolation(false)]
pub fn isqrt(n: u128) -> (r: u64)
    requires
        n < 0x4000_0000_0000_0000_0000_0000_0000_0000u128,
    ensures
        r as nat == sqrt_floor(n as nat),
        (r as int) * (r as int) <= n as int,
        (n as int) < ((r as int) + 1) * ((r as int) + 1),
{
    let mut lo: u128 = 0;
    let mut hi: u128 = 0x8000_0000_0000_0000u128;
    proof {
        let h = hi as int;
        assert(h * h == 0x4000_0000_0000_0000_0000_0000_0000_0000) by (nonlinear_arith)
            requires
                h == 0x8000_0000_0000_0000,
        ;
    }
    while lo + 1 < hi
        invariant
            (lo as int) * (lo as int) <= n as int,
            (n as int) < (hi as int) * (hi as int),
            lo < hi,
            hi <= 0x8000_0000_0000_0000u128,
        decreases hi - lo,
    {
        let mid = lo + (hi - lo) / 2;
        proof {
            assert(lo < mid < hi);
            let m = mid as int;
            assert(m * m < 0x4000_0000_0000_0000_0000_0000_0000_0000) by (nonlinear_arith)
                requires
                    0 <= m < 0x8000_0000_0000_0000,
            ;
        }
        if mid * mid <= n {
            lo = mid;
        } else {
            hi = mid;
        }
    }
    proof {
        assert(hi == lo + 1);
        lemma_sqrt_floor_unique(n as nat, lo as nat);
    }
    lo as u64
}

/// `(a * k) / m` rounded toward zero, computed without overflow.
/// The component is no larger than the vector length `m`, so the result
/// never exceeds `k`.
pub fn mul_div_trunc(a: i64, k: i64, m: u64) -> (r: i64)
    requires
        1 <= m,
        0 <= k <= 0x4000_0000_0000_0000i64,
        -(m as int) <= a as int <= m as int,
    ensures
        r as int == div_trunc(a as int * k as int, m as int),
        -(k as int) <= r as int <= k as int,
{
    let au: u128 = if a >= 0 {
        a as u128
    } else {
        (-(a as i128)) as u128
    };
    proof {
        assert(au <= m as u128);
        let x = au as int;
        let y = k as int;
        assert(x * y < 0x8000_0000_0000_0000_0000_0000_0000_0000) by (nonlinear_arith)
            requires
                0 <= x <= 0xFFFF_FFFF_FFFF_FFFF,
                0 <= y <= 0x4000_0000_0000_0000,
        ;
    }
    let q: u128 = au * (k as u128) / (m as u128);
    proof {
        lemma_mul_inequality(au as int, m as int, k as int);
        lemma_mul_is_commutative(m as int, k as int);
        lemma_div_is_ordered(au as int * k as int, m as int * k as int, m as int);
        lemma_div_by_multiple(k as int, m as int);
        assert(q <= k);
        if a < 0 {
            assert(au as int * k as int == -(a as int * k as int)) by (nonlinear_arith)
                requires
                    au as int == -(a as int),
            ;
        }
    }
    if a >= 0 {
        q as i64
    } else {
        -(q as i64)
    }
}

/// `(a * k) / m` rounded away from zero, computed without overflow.
pub fn mul_div_ceil(a: i64, k: i64, m: u64) -> (r: i64)
    requires
        1 <= m,
        0 <= k <= 0x4000_0000_0000_0000i64,
        -(m as int) <= a as int <= m as int,
    ensures
        r as int == div_ceil_away(a as int * k as int, m as int),
        -(k as int) <= r as int <= k as int,
{
    let au: u128 = if a >= 0 {
        a as u128
    } else {
        (-(a as i128)) as u128
    };
    proof {
        assert(au <= m as u128);
        let x = au as int;
        let y = k as int;
        let z = m as int;
        assert(x * y + z < 0x8000_0000_0000_0000_0000_0000_0000_0000) by (nonlinear_arith)
            requires
                0 <= x <= 0xFFFF_FFFF_FFFF_FFFF,
                0 <= y <= 0x4000_0000_0000_0000,
                0 <= z <= 0xFFFF_FFFF_FFFF_FFFF,
        ;
    }
    let q: u128 = (au * (k as u128) + (m as u128 - 1)) / (m as u128);
    proof {
        lemma_mul_inequality(au as int, m as int, k as int);
        lemma_mul_is_commutative(m as int, k as int);
        lemma_div_is_ordered(
            au as int * k as int + m as int - 1,
            m as int * k as int + m as int - 1,
            m as int,
        );
        lemma_fundamental_div_mod_converse(
            m as int * k as int + m as int - 1,
            m as int,
            k as int,
            m as int - 1,
        );
        assert(q <= k);
        lemma_basic_div(m as int - 1, m as int);
        if a < 0 {
            assert(au as int * k as int == -(a as int * k as int)) by (nonlinear_arith)
                requires
                    au as int == -(a as int),
            ;
        }
    }
    if a >= 0 {
        q as i64
    } else {
        -(q as i64)
    }
}

/// Rounding toward zero never increases the magnitude of a quotient:
/// `div_trunc(a, d) * d` lies between `0` and `a`.
pub proof fn lemma_div_trunc_close(a: int, d: int)
    requires
        d >= 1,
    ensures
        a >= 0 ==> div_trunc(a, d) * d <= a < (div_trunc(a, d) + 1) * d,
        a < 0 ==> div_trunc(a, d) * d >= a > (div_trunc(a, d) - 1) * d,
{
    if a >= 0 {
        lemma_fundamental_div_mod(a, d);
        lemma_mod_division_less_than_divisor(a, d);
        assert((a / d) * d <= a < (a / d + 1) * d) by (nonlinear_arith)
            requires
                d >= 1,
                a == d * (a / d) + a % d,
                0 <= a % d < d,
        ;
    } else {
        lemma_fundamental_div_mod(-a, d);
        lemma_mod_division_less_than_divisor(-a, d);
        let q = (-a) / d;
        assert(-(q * d) >= a > -((q + 1) * d)) by (nonlinear_arith)
            requires
                d >= 1,
                -a == d * q + (-a) % d,
                0 <= (-a) % d < d,
        ;
        assert(div_trunc(a, d) == -q);
        assert((-q) * d == -(q * d) && (-q - 1) * d == -((q + 1) * d)) by (nonlinear_arith);
    }
}

/// Rounding away from zero never decreases the magnitude of a quotient:
/// `a` lies between `0` and `div_ceil_away(a, d) * d`.
pub proof fn lemma_div_ceil_close(a: int, d: int)
    requires
        d >= 1,
    ensures
        a >= 0 ==> a <= div_ceil_away(a, d) * d < a + d,
        a < 0 ==> a >= div_ceil_away(a, d) * d > a - d,
{
    if a >= 0 {
        lemma_fundamental_div_mod(a + d - 1, d);
        lemma_mod_division_less_than_divisor(a + d - 1, d);
        let q = (a + d - 1) / d;
        assert(a <= q * d < a + d) by (nonlinear_arith)
            requires
                d >= 1,
                a + d - 1 == d * q + (a + d - 1) % d,
                0 <= (a + d - 1) % d < d,
        ;
    } else {
        lemma_fundamental_div_mod(-a + d - 1, d);
        lemma_mod_division_less_than_divisor(-a + d - 1, d);
        let q = (-a + d - 1) / d;
        assert(-a <= q * d < -a + d) by (nonlinear_arith)
            requires
                d >= 1,
                -a + d - 1 == d * q + (-a + d - 1) % d,
                0 <= (-a + d - 1) % d < d,
        ;
        assert(div_ceil_away(a, d) == -q);
        assert((-q) * d == -(q * d)) by (nonlinear_arith);
    }
}

} // verus!
