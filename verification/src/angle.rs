//! Angles in milli-degrees.
//!
//! A heading is an integer count of milli-degrees kept in the half-open
//! interval (-180000, 180000], i.e. (-180°, 180°]. `0` points along the
//! world +Y axis once the fixed quarter-turn offset of the steering rules is
//! taken into account; the representation itself is just a plain angle.

use vstd::prelude::*;
use vstd::math::abs;

verus! {

/// Milli-degrees in a full turn.
pub const FULL_TURN: i64 = 360_000;

/// Milli-degrees in a half turn.
pub const HALF_TURN: i64 = 180_000;

/// Milli-degrees in a quarter turn.
pub const QUARTER_TURN: i64 = 90_000;

/// Largest magnitude an un-normalized angle may take before it is reduced;
/// generous enough for every product formed by the motion rules.
pub const ANGLE_LIMIT: i64 = 0x1000_0000_0000;

/// A normalized angle: within (-180°, 180°], in milli-degrees.
pub open spec fn is_normal_angle(a: int) -> bool {
    -(HALF_TURN as int) < a <= HALF_TURN as int
}

/// Two angles that denote the same direction: they differ by a whole number
/// of full turns.
pub open spec fn same_direction(a: int, b: int) -> bool {
    exists|k: int| a - b == #[trigger] (k * (FULL_TURN as int))
}

/// The unique normalized angle denoting the same direction as `a`: full
/// turns are added or removed until the result lies within (-180°, 180°].
pub open spec fn reduce_angle(a: int) -> int
    decreases 2 * abs(a) + (if a < 0 { 1int } else { 0int }),
{
    if a > HALF_TURN as int {
        reduce_angle(a - FULL_TURN as int)
    } else if a <= -(HALF_TURN as int) {
        reduce_angle(a + FULL_TURN as int)
    } else {
        a
    }
}

/// `reduce_angle` indeed lands in (-180°, 180°] and keeps the direction.
pub proof fn lemma_reduce_angle(a: int)
    ensures
        is_normal_angle(reduce_angle(a)),
        same_direction(reduce_angle(a), a),
    decreases 2 * abs(a) + (if a < 0 { 1int } else { 0int }),
{
    let f = FULL_TURN as int;
    if a > HALF_TURN as int {
        lemma_reduce_angle(a - f);
        let r = reduce_angle(a);
        let k = choose|k: int| r - (a - f) == #[trigger] (k * f);
        assert(r - a == (k - 1) * f) by (nonlinear_arith)
            requires
                r - (a - f) == k * f,
        ;
    } else if a <= -(HALF_TURN as int) {
        lemma_reduce_angle(a + f);
        let r = reduce_angle(a);
        let k = choose|k: int| r - (a + f) == #[trigger] (k * f);
        assert(r - a == (k + 1) * f) by (nonlinear_arith)
            requires
                r - (a + f) == k * f,
        ;
    } else {
        assert(reduce_angle(a) - a == 0int * f);
    }
}

/// Two normalized angles denoting the same direction are equal: within one
/// turn's span there is only one representative of each direction.
pub proof fn lemma_normal_angle_unique(x: int, y: int)
    requires
        is_normal_angle(x),
        is_normal_angle(y),
        same_direction(x, y),
    ensures
        x == y,
{
    let f = FULL_TURN as int;
    let k = choose|k: int| x - y == #[trigger] (k * f);
    assert(k == 0) by (nonlinear_arith)
        requires
            x - y == k * f,
            -f < x - y < f,
            f > 0,
    ;
}

/// A normalized angle reduces to itself.
pub proof fn lemma_reduce_normal_angle(a: int)
    requires
        is_normal_angle(a),
    ensures
        reduce_angle(a) == a,
{
}

/// Reduce an arbitrary (bounded) angle into (-180°, 180°] without changing
/// the direction it denotes.
pub fn normalize_angle(a: i64) -> (r: i64)
    requires
        -ANGLE_LIMIT <= a <= ANGLE_LIMIT,
    ensures
        r as int == reduce_angle(a as int),
        is_normal_angle(r as int),
        same_direction(r as int, a as int),
{
    let mut r: i64 = a;
    proof {
        assert(r - a == 0int * (FULL_TURN as int));
    }
    while r > HALF_TURN
        invariant
            same_direction(r as int, a as int),
            r <= ANGLE_LIMIT,
            r >= -ANGLE_LIMIT,
        decreases r + FULL_TURN,
    {
        proof {
            let k = choose|k: int| r - a == #[trigger] (k * (FULL_TURN as int));
            assert((r - FULL_TURN) - a == (k - 1) * (FULL_TURN as int));
        }
        r = r - FULL_TURN;
    }
    while r <= -HALF_TURN
        invariant
            same_direction(r as int, a as int),
            r >= -ANGLE_LIMIT,
            r <= HALF_TURN,
        decreases HALF_TURN - r,
    {
        proof {
            let k = choose|k: int| r - a == #[trigger] (k * (FULL_TURN as int));
            assert((r + FULL_TURN) - a == (k + 1) * (FULL_TURN as int));
        }
        r = r + FULL_TURN;
    }
    proof {
        lemma_reduce_angle(a as int);
        let k1 = choose|k: int| r - a == #[trigger] (k * (FULL_TURN as int));
        let k2 = choose|k: int| reduce_angle(a as int) - a == #[trigger] (k * (FULL_TURN as int));
        assert(r - reduce_angle(a as int) == (k1 - k2) * (FULL_TURN as int)) by (nonlinear_arith)
            requires
                r - a == k1 * (FULL_TURN as int),
                reduce_angle(a as int) - a == k2 * (FULL_TURN as int),
        ;
        lemma_normal_angle_unique(r as int, reduce_angle(a as int));
    }
    r
}

/// Normalize an angular difference into (-180°, 180°] with at most one
/// correction by a full turn. The steering rules only ever form differences
/// strictly within (-540°, 540°], where one correction always suffices.
pub fn normalize_once(a: i64) -> (r: i64)
    requires
        -(3 * HALF_TURN as int) < a <= 3 * HALF_TURN as int,
    ensures
        r as int == reduce_angle(a as int),
        is_normal_angle(r as int),
        r == a || r == a - FULL_TURN || r == a + FULL_TURN,
        same_direction(r as int, a as int),
{
    let r: i64 = if a > HALF_TURN {
        a - FULL_TURN
    } else if a <= -HALF_TURN {
        a + FULL_TURN
    } else {
        a
    };
    proof {
        if r == a {
            assert(r - a == 0int * (FULL_TURN as int));
        } else if r == a - FULL_TURN {
            assert(r - a == (-1int) * (FULL_TURN as int));
        } else {
            assert(r - a == 1int * (FULL_TURN as int));
        }
        lemma_reduce_angle(a as int);
        let k1 = choose|k: int| r - a == #[trigger] (k * (FULL_TURN as int));
        let k2 = choose|k: int| reduce_angle(a as int) - a == #[trigger] (k * (FULL_TURN as int));
        assert(r - reduce_angle(a as int) == (k1 - k2) * (FULL_TURN as int)) by (nonlinear_arith)
            requires
                r - a == k1 * (FULL_TURN as int),
                reduce_angle(a as int) - a == k2 * (FULL_TURN as int),
        ;
        lemma_normal_angle_unique(r as int, reduce_angle(a as int));
    }
    r
}

} // verus!
