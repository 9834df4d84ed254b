use vstd::prelude::*;

verus! {

/// Fixed-point steps per world unit (lengths are held in thousandths).
pub const SCALE: i64 = 1_000;

/// Fixed-point steps per second, the unit in which a time step is given.
pub const TICKS_PER_SECOND: i64 = 1_000_000;

/// `TICKS_PER_SECOND` squared: squared ticks in one second squared.
pub const TICKS_PER_SECOND_SQ: i128 = 1_000_000_000_000;

/// Largest magnitude of a particle coordinate or acceleration component.
pub const LIMIT: i64 = 34_359_738_368;

/// Largest magnitude of a world's center coordinate or radius.
pub const WORLD_LIMIT: i64 = 8_589_934_592;

/// Sub-steps per step in which the distance of two particles is measured
/// when they are pushed apart; it exceeds any sum of two radii in steps.
pub const FRAC: i128 = 134_217_728;

/// A point in the plane, as mathematical integers.
pub struct Point {
    pub x: int,
    pub y: int,
}

/// A 2D vector in fixed-point steps.
#[derive(Clone, Copy, Debug, PartialEq, Eq, Structural)]
pub struct Vec2 {
    pub x: i64,
    pub y: i64,
}

impl View for Vec2 {
    type V = Point;

    open spec fn view(&self) -> Point {
        Point { x: self.x as int, y: self.y as int }
    }
}

impl Vec2 {
    pub fn new(x: i64, y: i64) -> (r: Vec2)
        ensures
            r.x == x,
            r.y == y,
    {
        Vec2 { x, y }
    }

    pub fn zero() -> (r: Vec2)
        ensures
            r.x == 0,
            r.y == 0,
    {
        Vec2 { x: 0, y: 0 }
    }
}

/// Both coordinates lie within `[-bound, bound]`.
pub open spec fn within(p: Point, bound: int) -> bool {
    -bound <= p.x <= bound && -bound <= p.y <= bound
}

/// `v` saturated into `[-LIMIT, LIMIT]`.
pub open spec fn clamp(v: int) -> int {
    if v > LIMIT {
        LIMIT as int
    } else if v < -LIMIT {
        -LIMIT
    } else {
        v
    }
}

/// Division rounding toward zero, for a positive divisor.
pub open spec fn div_trunc(n: int, d: int) -> int {
    if n >= 0 {
        n / d
    } else {
        -((-n) / d)
    }
}

/// `r` is the square root of `n` rounded up.
pub open spec fn is_ceil_sqrt(n: int, r: int) -> bool {
    &&& r >= 0
    &&& n <= r * r
    &&& (r == 0 || (r - 1) * (r - 1) < n)
}

/// The square root of `n` rounded up.
pub open spec fn ceil_sqrt(n: int) -> int {
    choose|r: int| #[trigger] is_ceil_sqrt(n, r)
}

pub open spec fn abs(v: int) -> int {
    if v < 0 {
        -v
    } else {
        v
    }
}

/// `|n| / d` rounded down is the magnitude of the truncated quotient.
pub proof fn lemma_div_trunc_abs(n: int, d: int)
    requires
        d > 0,
    ensures
        abs(div_trunc(n, d)) == abs(n) / d,
        abs(div_trunc(n, d)) * d <= abs(n),
        abs(div_trunc(n, d)) <= abs(n),
{
    let q = abs(n) / d;
    assert(0 <= q && q * d <= abs(n) && q <= abs(n)) by (nonlinear_arith)
        requires
            abs(n) >= 0,
            d > 0,
            q == abs(n) / d,
    ;
}

/// The squared length of a vector.
pub open spec fn norm_sq(dx: int, dy: int) -> int {
    dx * dx + dy * dy
}

proof fn lemma_ceil_sqrt_exists(n: int)
    requires
        n >= 0,
    ensures
        exists|r: int| #[trigger] is_ceil_sqrt(n, r),
    decreases n,
{
    if n == 0 {
        assert(is_ceil_sqrt(0, 0));
    } else {
        lemma_ceil_sqrt_exists(n - 1);
        let r = choose|r: int| #[trigger] is_ceil_sqrt(n - 1, r);
        if r * r >= n {
            assert(is_ceil_sqrt(n, r));
        } else {
            assert((r + 1) * (r + 1) >= n) by (nonlinear_arith)
                requires
                    r >= 0,
                    r * r == n - 1,
            ;
            assert(is_ceil_sqrt(n, r + 1));
        }
    }
}

proof fn lemma_ceil_sqrt_unique(n: int, a: int, b: int)
    requires
        is_ceil_sqrt(n, a),
        is_ceil_sqrt(n, b),
    ensures
        a == b,
{
    if a < b {
        assert(a * a <= (b - 1) * (b - 1)) by (nonlinear_arith)
            requires
                0 <= a <= b - 1,
        ;
    } else if b < a {
        assert(b * b <= (a - 1) * (a - 1)) by (nonlinear_arith)
            requires
                0 <= b <= a - 1,
        ;
    }
}

/// The rounded-up square root satisfies its defining bounds.
pub proof fn lemma_ceil_sqrt(n: int)
    requires
        n >= 0,
    ensures
        is_ceil_sqrt(n, ceil_sqrt(n)),
        n > 0 ==> ceil_sqrt(n) > 0,
{
    lemma_ceil_sqrt_exists(n);
}

/// Rounded-up integer square root, by bisection.
pub fn ceil_sqrt_u128(n: u128) -> (r: u128)
    requires
        n <= 0x8000_0000_0000_0000_0000_0000_0000_0000,
    ensures
        r as int == ceil_sqrt(n as int),
        r <= 0x1_0000_0000_0000_0000,
{
    let mut lo: u128 = 0;
    let mut hi: u128 = 0x1_0000_0000_0000_0000;
    assert(hi * hi == 0x1_0000_0000_0000_0000_0000_0000_0000_0000) by (nonlinear_arith)
        requires
            hi == 0x1_0000_0000_0000_0000,
    ;
    while hi - lo > 1
        invariant
            lo < hi <= 0x1_0000_0000_0000_0000,
            lo * lo <= n,
            n < hi * hi,
        decreases hi - lo,
    {
        let mid: u128 = lo + (hi - lo) / 2;
        assert(mid * mid < 0x1_0000_0000_0000_0000_0000_0000_0000_0000) by (nonlinear_arith)
            requires
                mid < hi <= 0x1_0000_0000_0000_0000,
        ;
        if mid * mid <= n {
            lo = mid;
        } else {
            hi = mid;
        }
    }
    assert(lo * lo < 0x1_0000_0000_0000_0000_0000_0000_0000_0000) by (nonlinear_arith)
        requires
            lo < 0x1_0000_0000_0000_0000,
    ;
    let r: u128 = if lo * lo == n {
        lo
    } else {
        lo + 1
    };
    proof {
        assert(hi == lo + 1);
        if lo * lo == n && lo > 0 {
            assert((lo - 1) * (lo - 1) < lo * lo) by (nonlinear_arith)
                requires
                    lo > 0,
            ;
        }
        assert(is_ceil_sqrt(n as int, r as int));
        lemma_ceil_sqrt(n as int);
        lemma_ceil_sqrt_unique(n as int, r as int, ceil_sqrt(n as int));
    }
    r
}

/// Division rounding toward zero, for a positive divisor.
pub fn trunc_div(n: i128, d: i128) -> (r: i128)
    requires
        d > 0,
        n > i128::MIN,
    ensures
        r as int == div_trunc(n as int, d as int),
{
    if n >= 0 {
        n / d
    } else {
        let q = (-n) / d;
        -q
    }
}

/// Saturates `v` into `[-LIMIT, LIMIT]`.
pub fn clamp_i128(v: i128) -> (r: i64)
    ensures
        r as int == clamp(v as int),
{
    if v > LIMIT as i128 {
        LIMIT
    } else if v < -(LIMIT as i128) {
        -LIMIT
    } else {
        v as i64
    }
}

} // verus!
