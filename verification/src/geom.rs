//! Plane geometry over fixed-point integers.
//!
//! Positions are pairs of milli-unit coordinates. Distances are measured as
//! the integer square root of the squared distance, and the scaled
//! multiply-divide used throughout the motion rules rounds toward zero, the
//! natural rounding for symmetric movement along either direction of an axis.

use vstd::prelude::*;
use vstd::arithmetic::div_mod::lemma_fundamental_div_mod;
use vstd::arithmetic::div_mod::lemma_mod_bound;

verus! {

/// Largest coordinate magnitude the world allows, in milli-units
/// (one million world units); keeps every squared distance inside `u64`.
pub const COORD_LIMIT: i64 = 1_000_000_000;

/// A point of the plane, in milli-units.
#[derive(Clone, Copy, PartialEq, Eq, Structural, Debug)]
pub struct Pos {
    pub x: i64,
    pub y: i64,
}

/// The point lies within the world's coordinate bounds.
pub open spec fn in_bounds(p: Pos) -> bool {
    -(COORD_LIMIT as int) <= p.x <= COORD_LIMIT as int
        && -(COORD_LIMIT as int) <= p.y <= COORD_LIMIT as int
}

/// Squared distance between two points, in squared milli-units.
pub open spec fn dist_sq(a: Pos, b: Pos) -> int {
    (a.x - b.x) * (a.x - b.x) + (a.y - b.y) * (a.y - b.y)
}

/// `r` is the integer square root (rounded down) of `n`.
pub open spec fn is_sqrt_floor(n: int, r: int) -> bool {
    r >= 0 && r * r <= n < (r + 1) * (r + 1)
}

/// The integer square root of `n`, rounded down; 0 for negative `n`.
pub open spec fn sqrt_floor(n: int) -> int
    decreases n,
{
    if n <= 0 {
        0
    } else {
        let below = sqrt_floor(n - 1);
        if (below + 1) * (below + 1) <= n {
            below + 1
        } else {
            below
        }
    }
}

/// `sqrt_floor` satisfies the square-root characterization.
pub proof fn lemma_sqrt_floor_is_sqrt(n: int)
    requires
        n >= 0,
    ensures
        is_sqrt_floor(n, sqrt_floor(n)),
    decreases n,
{
    if n > 0 {
        lemma_sqrt_floor_is_sqrt(n - 1);
        let below = sqrt_floor(n - 1);
        if (below + 1) * (below + 1) <= n {
            assert(n < (below + 2) * (below + 2)) by (nonlinear_arith)
                requires
                    n - 1 < (below + 1) * (below + 1),
                    below >= 0,
            ;
        }
    }
}

/// Only one integer satisfies the square-root characterization.
pub proof fn lemma_sqrt_floor_unique(n: int, r1: int, r2: int)
    requires
        is_sqrt_floor(n, r1),
        is_sqrt_floor(n, r2),
    ensures
        r1 == r2,
{
    assert(r1 == r2) by (nonlinear_arith)
        requires
            r1 >= 0 && r1 * r1 <= n < (r1 + 1) * (r1 + 1),
            r2 >= 0 && r2 * r2 <= n < (r2 + 1) * (r2 + 1),
    ;
}

/// An upper bound on a squared quantity bounds its square root.
pub proof fn lemma_sqrt_floor_le(n: int, r: int, cap: int)
    requires
        is_sqrt_floor(n, r),
        cap >= 0,
        n < (cap + 1) * (cap + 1),
    ensures
        r <= cap,
{
    assert(r <= cap) by (nonlinear_arith)
        requires
            r >= 0 && r * r <= n,
            cap >= 0,
            n < (cap + 1) * (cap + 1),
    ;
}

/// Magnitude of an integer.
pub open spec fn abs1(n: int) -> int {
    if n >= 0 {
        n
    } else {
        -n
    }
}

/// `n * num / den`, rounded toward zero.
pub open spec fn mul_div_toward_zero(n: int, num: int, den: int) -> int {
    if n >= 0 {
        (n * num) / den
    } else {
        -((-n * num) / den)
    }
}

/// Multiplying by a zero numerator moves nothing, whatever the sign.
pub proof fn lemma_mul_div_zero(n: int, den: int)
    requires
        den > 0,
    ensures
        mul_div_toward_zero(n, 0, den) == 0,
{
    assert(n * 0 == 0 && -n * 0 == 0) by (nonlinear_arith);
    vstd::arithmetic::div_mod::lemma_div_basics(den);
}

/// Squared distance between two in-bounds points; exact.
pub fn dist_sq_exec(a: Pos, b: Pos) -> (r: u64)
    requires
        in_bounds(a),
        in_bounds(b),
    ensures
        r as int == dist_sq(a, b),
{
    let dx: i64 = a.x - b.x;
    let dy: i64 = a.y - b.y;
    proof {
        assert(0 <= dx * dx <= 4_000_000_000_000_000_000
            && 0 <= dy * dy <= 4_000_000_000_000_000_000) by (nonlinear_arith)
            requires
                -2_000_000_000 <= dx <= 2_000_000_000,
                -2_000_000_000 <= dy <= 2_000_000_000,
        ;
    }
    let sx: i64 = dx * dx;
    let sy: i64 = dy * dy;
    (sx + sy) as u64
}

/// Integer square root by bisection: returns the floor of the square root.
pub fn isqrt(n: u64) -> (r: u64)
    ensures
        r as int == sqrt_floor(n as int),
        is_sqrt_floor(n as int, r as int),
{
    let mut lo: u64 = 0;
    let mut hi: u64 = 0x1_0000_0000;
    proof {
        assert((0x1_0000_0000int) * (0x1_0000_0000int) > u64::MAX as int);
    }
    while lo + 1 < hi
        invariant
            lo < hi <= 0x1_0000_0000,
            lo * lo <= n as int,
            (n as int) < hi * hi,
        decreases hi - lo,
    {
        let mid: u64 = lo + (hi - lo) / 2;
        proof {
            assert(mid * mid <= 0xFFFF_FFFFu64 * 0xFFFF_FFFFu64) by (nonlinear_arith)
                requires
                    0 <= mid < 0x1_0000_0000u64,
            ;
        }
        let sq: u64 = mid * mid;
        if sq <= n {
            lo = mid;
        } else {
            hi = mid;
        }
    }
    proof {
        lemma_sqrt_floor_is_sqrt(n as int);
        lemma_sqrt_floor_unique(n as int, lo as int, sqrt_floor(n as int));
    }
    lo
}

/// Distance between two in-bounds points: the integer square root of the
/// squared distance, in milli-units.
pub fn distance(a: Pos, b: Pos) -> (r: u64)
    requires
        in_bounds(a),
        in_bounds(b),
    ensures
        r as int == sqrt_floor(dist_sq(a, b)),
        is_sqrt_floor(dist_sq(a, b), r as int),
        r <= 3_000_000_000u64,
{
    let r = isqrt(dist_sq_exec(a, b));
    proof {
        assert(dist_sq(a, b) < 3_000_000_000 * 3_000_000_000) by (nonlinear_arith)
            requires
                -2_000_000_000 <= a.x - b.x <= 2_000_000_000,
                -2_000_000_000 <= a.y - b.y <= 2_000_000_000,
        ;
        lemma_sqrt_floor_le(dist_sq(a, b), r as int, 2_999_999_999);
    }
    r
}

/// Clamp a coordinate into the world's bounds.
pub open spec fn clamp_coord(v: int) -> int {
    if v < -(COORD_LIMIT as int) {
        -(COORD_LIMIT as int)
    } else if v > COORD_LIMIT as int {
        COORD_LIMIT as int
    } else {
        v
    }
}

/// Clamp a coordinate into the world's bounds; exact.
pub fn clamp_coord_exec(v: i64) -> (r: i64)
    ensures
        r as int == clamp_coord(v as int),
{
    if v < -COORD_LIMIT {
        -COORD_LIMIT
    } else if v > COORD_LIMIT {
        COORD_LIMIT
    } else {
        v
    }
}

/// The floor square root of a squared sum dominates either component's
/// magnitude: the hypotenuse is at least as long as each leg.
pub proof fn lemma_sqrt_floor_ge_component(dx: int, dy: int, r: int)
    requires
        is_sqrt_floor(dx * dx + dy * dy, r),
    ensures
        abs1(dx) <= r,
        abs1(dy) <= r,
{
    assert(abs1(dx) <= r && abs1(dy) <= r) by (nonlinear_arith)
        requires
            r >= 0,
            dx * dx + dy * dy < (r + 1) * (r + 1),
    ;
}

/// `n * num / den` rounded toward zero, computed on magnitudes so that the
/// result is exactly the mathematical expression whatever the sign of `n`.
pub fn scaled_div(n: i64, num: u64, den: u64) -> (r: i64)
    requires
        den > 0,
        n > i64::MIN,
        abs1(n as int) * num <= i64::MAX as int,
    ensures
        r as int == mul_div_toward_zero(n as int, num as int, den as int),
        abs1(r as int) * den <= abs1(n as int) * num,
        n >= 0 ==> r >= 0,
        n <= 0 ==> r <= 0,
{
    let mag: u64 = if n >= 0 {
        n as u64
    } else {
        (-n) as u64
    };
    proof {
        assert(mag as int == abs1(n as int));
        assert((mag as int) * (num as int) <= i64::MAX as int) by (nonlinear_arith)
            requires
                mag as int == abs1(n as int),
                abs1(n as int) * num <= i64::MAX as int,
        ;
    }
    let prod: u64 = mag * num;
    let q: u64 = prod / den;
    proof {
        lemma_fundamental_div_mod(prod as int, den as int);
        lemma_mod_bound(prod as int, den as int);
        assert((q as int) * (den as int) <= prod as int) by (nonlinear_arith)
            requires
                prod as int == (den as int) * (q as int) + (prod as int) % (den as int),
                0 <= (prod as int) % (den as int),
        ;
        assert(mag == 0 ==> q == 0) by (nonlinear_arith)
            requires
                (q as int) * (den as int) <= prod as int,
                prod as int == (mag as int) * (num as int),
                den > 0,
                q >= 0,
        ;
    }
    if n >= 0 {
        q as i64
    } else {
        -(q as i64)
    }
}

} // verus!
