use vstd::prelude::*;

use crate::geometry::{
    abs, lemma_div_trunc_abs, FRAC, ceil_sqrt, ceil_sqrt_u128, clamp, clamp_i128, div_trunc, is_ceil_sqrt, lemma_ceil_sqrt, norm_sq,
    trunc_div, within, Point, Vec2, LIMIT, SCALE, WORLD_LIMIT,
};
use crate::particle::{colliding, contact_distance, Particle, ParticleView};

verus! {

/// The mathematical state of a circular world.
pub struct WorldView {
    pub radius: int,
    pub center: Point,
}

impl WorldView {
    pub open spec fn wf(self) -> bool {
        &&& 0 < self.radius <= WORLD_LIMIT
        &&& within(self.center, WORLD_LIMIT as int)
    }
}

/// The distance `sqrt(d2)` exceeds `lim`.
pub open spec fn exceeds(d2: int, lim: int) -> bool {
    lim < 0 || d2 > lim * lim
}

/// How far the particle's centre may lie from the world's centre.
pub open spec fn free_radius(w: WorldView, p: ParticleView) -> int {
    w.radius - p.radius * SCALE
}

/// A particle whose centre lies farther than `free_radius` from the world's
/// centre is moved along that direction to exactly that distance (rounded
/// toward the centre). A particle on the centre itself has no direction
/// and stays.
pub open spec fn contain_spec(w: WorldView, p: ParticleView) -> ParticleView {
    let dx = p.cur.x - w.center.x;
    let dy = p.cur.y - w.center.y;
    let d2 = norm_sq(dx, dy);
    let lim = free_radius(w, p);
    if d2 > 0 && exceeds(d2, lim) {
        let dist = ceil_sqrt(d2);
        ParticleView {
            cur: Point {
                x: w.center.x + div_trunc(dx * lim, dist),
                y: w.center.y + div_trunc(dy * lim, dist),
            },
            ..p
        }
    } else {
        p
    }
}

/// The pair collides so deeply that both lose their velocity.
pub open spec fn deep_contact(dist: int, contact: int) -> bool {
    10 * dist < 9 * contact
}

/// The distance of the two centres in sub-steps (`FRAC` per step),
/// rounded up.
pub open spec fn pair_distance(a: ParticleView, b: ParticleView) -> int {
    ceil_sqrt(norm_sq(a.cur.x - b.cur.x, a.cur.y - b.cur.y) * (FRAC * FRAC))
}

/// How far `a` moves to resolve the pair (`b` moves the opposite way): half
/// of `contact - distance` along the direction from `b` to `a`, each
/// coordinate rounded toward zero.
pub open spec fn resolve_shift(a: ParticleView, b: ParticleView) -> Point {
    let dist = pair_distance(a, b);
    let overlap = contact_distance(a, b) * FRAC - dist;
    Point {
        x: div_trunc((a.cur.x - b.cur.x) * overlap, 2 * dist),
        y: div_trunc((a.cur.y - b.cur.y) * overlap, 2 * dist),
    }
}

/// Each particle moves by `resolve_shift`, `a` away from `b` and `b` away
/// from `a`. After a deep contact both previous positions snap to the new
/// ones. Coincident centres have no direction: the pair is left as it is.
pub open spec fn resolve_spec(a: ParticleView, b: ParticleView) -> (ParticleView, ParticleView) {
    if a.cur == b.cur {
        (a, b)
    } else {
        let m = resolve_shift(a, b);
        let a_cur = Point { x: clamp(a.cur.x + m.x), y: clamp(a.cur.y + m.y) };
        let b_cur = Point { x: clamp(b.cur.x - m.x), y: clamp(b.cur.y - m.y) };
        let deep = deep_contact(pair_distance(a, b), contact_distance(a, b) * FRAC);
        (
            ParticleView { cur: a_cur, prev: if deep { a_cur } else { a.prev }, ..a },
            ParticleView { cur: b_cur, prev: if deep { b_cur } else { b.prev }, ..b },
        )
    }
}

/// A coordinate of a vector of length at most `dist`, scaled by `lim / dist`,
/// is at most `|lim|` in size.
proof fn lemma_scaled_bound(dx: int, lim: int, dist: int)
    requires
        dist > 0,
        dx * dx <= dist * dist,
    ensures
        abs(div_trunc(dx * lim, dist)) <= abs(lim),
{
    lemma_div_trunc_abs(dx * lim, dist);
    assert(abs(dx) <= dist) by (nonlinear_arith)
        requires
            dist > 0,
            dx * dx <= dist * dist,
            abs(dx) == (if dx < 0 { -dx } else { dx }),
    ;
    assert(abs(dx * lim) == abs(dx) * abs(lim)) by (nonlinear_arith)
        requires
            abs(dx * lim) == (if dx * lim < 0 { -(dx * lim) } else { dx * lim }),
            abs(dx) == (if dx < 0 { -dx } else { dx }),
            abs(lim) == (if lim < 0 { -lim } else { lim }),
    ;
    assert(abs(dx) * abs(lim) <= dist * abs(lim)) by (nonlinear_arith)
        requires
            abs(dx) <= dist,
            abs(lim) >= 0,
    ;
    let q = abs(div_trunc(dx * lim, dist));
    assert(q <= abs(lim)) by (nonlinear_arith)
        requires
            q * dist <= dist * abs(lim),
            dist > 0,
    ;
}

proof fn lemma_div_trunc_neg(n: int, d: int)
    requires
        d > 0,
    ensures
        div_trunc(-n, d) == -div_trunc(n, d),
{
}

/// Resolving a pair does not depend on the order of the two particles:
/// `resolve(b, a)` gives the same two particles as `resolve(a, b)`.
pub proof fn lemma_resolve_symmetric(a: ParticleView, b: ParticleView)
    ensures
        resolve_spec(b, a) == (resolve_spec(a, b).1, resolve_spec(a, b).0),
{
    let dx = a.cur.x - b.cur.x;
    let dy = a.cur.y - b.cur.y;
    assert(norm_sq(-dx, -dy) == norm_sq(dx, dy)) by (nonlinear_arith);
    assert(contact_distance(b, a) == contact_distance(a, b));
    assert(pair_distance(b, a) == pair_distance(a, b));
    if a.cur != b.cur {
        let n2 = norm_sq(dx, dy) * (FRAC * FRAC);
        assert(n2 >= 0) by (nonlinear_arith)
            requires
                n2 == (dx * dx + dy * dy) * (FRAC * FRAC),
        ;
        assert(n2 > 0) by (nonlinear_arith)
            requires
                n2 == (dx * dx + dy * dy) * (FRAC * FRAC),
                dx != 0 || dy != 0,
        ;
        lemma_ceil_sqrt(n2);
        let dist = pair_distance(a, b);
        let overlap = contact_distance(a, b) * FRAC - dist;
        assert((-dx) * overlap == -(dx * overlap)) by (nonlinear_arith);
        assert((-dy) * overlap == -(dy * overlap)) by (nonlinear_arith);
        lemma_div_trunc_neg(dx * overlap, 2 * dist);
        lemma_div_trunc_neg(dy * overlap, 2 * dist);
    }
}

/// The truncated quotient misses the exact one by less than the divisor.
proof fn lemma_div_trunc_rem(n: int, d: int)
    requires
        d > 0,
    ensures
        abs(n - d * div_trunc(n, d)) < d,
{
    if n >= 0 {
        let q = n / d;
        assert(0 <= n - d * q < d) by (nonlinear_arith)
            requires
                n >= 0,
                d > 0,
                q == n / d,
        ;
    } else {
        let q = (-n) / d;
        assert(0 <= -n - d * q < d) by (nonlinear_arith)
            requires
                -n >= 0,
                d > 0,
                q == (-n) / d,
        ;
        assert(d * (-q) == -(d * q)) by (nonlinear_arith);
    }
}

/// Integer core of the separation bound: `d` is `|v| * f` rounded up with
/// `f >= c`, and `m` is `v * (c * f - d) / (2 * d)` up to less than one
/// in each coordinate; then `|v + 2 * m|` lies within 10 of `c`.
proof fn lemma_separation_bounds(vx: int, vy: int, c: int, f: int, d: int, mx: int, my: int)
    requires
        f >= c >= 0,
        d > 0,
        norm_sq(vx, vy) > 0,
        d * d >= norm_sq(vx, vy) * (f * f),
        (d - 1) * (d - 1) < norm_sq(vx, vy) * (f * f),
        abs(2 * d * mx - vx * (c * f - d)) < 2 * d,
        abs(2 * d * my - vy * (c * f - d)) < 2 * d,
    ensures
        norm_sq(vx + 2 * mx, vy + 2 * my) <= (c + 10) * (c + 10),
        c >= 10 ==> (c - 10) * (c - 10) <= norm_sq(vx + 2 * mx, vy + 2 * my),
{
    let v2 = norm_sq(vx, vy);
    let ex = 2 * d * mx - vx * (c * f - d);
    let ey = 2 * d * my - vy * (c * f - d);
    let zx = vx * c * f;
    let zy = vy * c * f;
    let nx = vx + 2 * mx;
    let ny = vy + 2 * my;
    assert(d * (vx + 2 * mx) == vx * c * f + (2 * d * mx - vx * (c * f - d))) by (nonlinear_arith);
    assert(d * (vy + 2 * my) == vy * c * f + (2 * d * my - vy * (c * f - d))) by (nonlinear_arith);
    assert((vx * c * f) * (vx * c * f) == (vx * vx) * (f * f) * (c * c)) by (nonlinear_arith);
    assert((vy * c * f) * (vy * c * f) == (vy * vy) * (f * f) * (c * c)) by (nonlinear_arith);
    assert((vx * vx) * (f * f) * (c * c) + (vy * vy) * (f * f) * (c * c) == (vx * vx + vy * vy) * (
    f * f) * (c * c)) by (nonlinear_arith);
    assert(d * nx == zx + ex && d * ny == zy + ey);
    assert(zx * zx + zy * zy == v2 * (f * f) * (c * c));
    assert(v2 * (f * f) * (c * c) <= d * d * (c * c)) by (nonlinear_arith)
        requires
            d * d >= v2 * (f * f),
    ;
    assert(abs(zx) <= c * d && abs(zy) <= c * d) by (nonlinear_arith)
        requires
            zx * zx + zy * zy <= d * d * (c * c),
            c >= 0,
            d > 0,
            abs(zx) == (if zx < 0 { -zx } else { zx }),
            abs(zy) == (if zy < 0 { -zy } else { zy }),
    ;
    assert(-2 * c * d * d * 4 <= 2 * (zx * ex + zy * ey) <= 2 * c * d * d * 4) by (nonlinear_arith)
        requires
            abs(zx) <= c * d,
            abs(zy) <= c * d,
            abs(ex) < 2 * d,
            abs(ey) < 2 * d,
            abs(zx) == (if zx < 0 { -zx } else { zx }),
            abs(zy) == (if zy < 0 { -zy } else { zy }),
            abs(ex) == (if ex < 0 { -ex } else { ex }),
            abs(ey) == (if ey < 0 { -ey } else { ey }),
            c >= 0,
            d > 0,
    ;
    assert(0 <= ex * ex + ey * ey <= 8 * d * d) by (nonlinear_arith)
        requires
            abs(ex) < 2 * d,
            abs(ey) < 2 * d,
            abs(ex) == (if ex < 0 { -ex } else { ex }),
            abs(ey) == (if ey < 0 { -ey } else { ey }),
    ;
    let n2 = nx * nx + ny * ny;
    assert(d * d * n2 == (zx * zx + zy * zy) + 2 * (zx * ex + zy * ey) + (ex * ex + ey * ey))
        by (nonlinear_arith)
        requires
            d * nx == zx + ex,
            d * ny == zy + ey,
            n2 == nx * nx + ny * ny,
    ;
    let zz = zx * zx + zy * zy;
    let ze = 2 * (zx * ex + zy * ey);
    let ee = ex * ex + ey * ey;
    assert(d * d * n2 == zz + ze + ee);
    assert(zz <= d * d * (c * c));
    assert(d * d * n2 <= d * d * (c * c) + 8 * c * d * d + 8 * d * d) by (nonlinear_arith)
        requires
            d * d * n2 == zz + ze + ee,
            zz <= d * d * (c * c),
            ze <= 2 * c * d * d * 4,
            ee <= 8 * d * d,
    ;
    assert(n2 <= (c + 10) * (c + 10)) by (nonlinear_arith)
        requires
            d * d * n2 <= d * d * (c * c) + 8 * c * d * d + 8 * d * d,
            d > 0,
            c >= 0,
    ;
    if c >= 10 {
        assert(d >= f) by (nonlinear_arith)
            requires
                d * d >= v2 * (f * f),
                v2 >= 1,
                d > 0,
                f > 0,
        ;
        assert(zx * zx + zy * zy >= (d - 1) * (d - 1) * (c * c)) by (nonlinear_arith)
            requires
                zx * zx + zy * zy == v2 * (f * f) * (c * c),
                (d - 1) * (d - 1) < v2 * (f * f),
        ;
        assert(c * c * ((d - 1) * (d - 1)) - 8 * c * d * d >= (c - 10) * (c - 10) * (d * d))
            by (nonlinear_arith)
            requires
                d >= c,
                c >= 10,
        ;
        assert(d * d * n2 >= c * c * ((d - 1) * (d - 1)) - 8 * c * d * d) by (nonlinear_arith)
            requires
                d * d * n2 == zz + ze + ee,
                zz >= (d - 1) * (d - 1) * (c * c),
                ze >= -2 * c * d * d * 4,
                ee >= 0,
        ;
        assert((c - 10) * (c - 10) <= n2) by (nonlinear_arith)
            requires
                d * d * n2 >= c * c * ((d - 1) * (d - 1)) - 8 * c * d * d,
                c * c * ((d - 1) * (d - 1)) - 8 * c * d * d >= (c - 10) * (c - 10) * (d * d),
                d > 0,
        ;
    }
}

/// Resolving a pair sets the distance of the centres to the contact
/// distance (the sum of the radii) up to 10 steps, and moves each particle
/// by half of `contact - |v|` along `v = a - b` from `b` to `a`: with `dist`
/// the length `|v|` measured in `FRAC` sub-steps per step and rounded up,
/// `2 * dist * move` is `v * (contact * FRAC - dist)` up to less than
/// `2 * dist` in each coordinate. Stated for non-coincident pairs where no
/// coordinate saturates; the lower bound for pairs of positive contact
/// distance.
pub proof fn lemma_resolve_separates(a: ParticleView, b: ParticleView)
    requires
        a.wf(),
        b.wf(),
        a.cur != b.cur,
        within(
            Point { x: a.cur.x + resolve_shift(a, b).x, y: a.cur.y + resolve_shift(a, b).y },
            LIMIT as int,
        ),
        within(
            Point { x: b.cur.x - resolve_shift(a, b).x, y: b.cur.y - resolve_shift(a, b).y },
            LIMIT as int,
        ),
    ensures
        ({
            let vx = a.cur.x - b.cur.x;
            let vy = a.cur.y - b.cur.y;
            let dist = pair_distance(a, b);
            let c = contact_distance(a, b);
            let (na, nb) = resolve_spec(a, b);
            let sep = norm_sq(na.cur.x - nb.cur.x, na.cur.y - nb.cur.y);
            &&& is_ceil_sqrt(norm_sq(vx, vy) * (FRAC * FRAC), dist)
            &&& dist > 0
            &&& sep <= (c + 10) * (c + 10)
            &&& (c > 0 ==> (c - 10) * (c - 10) <= sep)
            &&& abs(2 * dist * (na.cur.x - a.cur.x) - vx * (c * FRAC - dist)) < 2 * dist
            &&& abs(2 * dist * (na.cur.y - a.cur.y) - vy * (c * FRAC - dist)) < 2 * dist
            &&& abs(2 * dist * (b.cur.x - nb.cur.x) - vx * (c * FRAC - dist)) < 2 * dist
            &&& abs(2 * dist * (b.cur.y - nb.cur.y) - vy * (c * FRAC - dist)) < 2 * dist
        }),
{
    let vx = a.cur.x - b.cur.x;
    let vy = a.cur.y - b.cur.y;
    let v2 = norm_sq(vx, vy);
    let c = contact_distance(a, b);
    let f = FRAC as int;
    assert(v2 > 0) by (nonlinear_arith)
        requires
            v2 == vx * vx + vy * vy,
            vx != 0 || vy != 0,
    ;
    let n2 = v2 * (f * f);
    assert(n2 > 0) by (nonlinear_arith)
        requires
            n2 == v2 * (f * f),
            v2 > 0,
            f > 0,
    ;
    lemma_ceil_sqrt(n2);
    let dist = pair_distance(a, b);
    let m = resolve_shift(a, b);
    assert(0 <= c <= 131_070_000) by (nonlinear_arith)
        requires
            c == (a.radius + b.radius) * 1000,
            0 <= a.radius <= 65535,
            0 <= b.radius <= 65535,
    ;
    assert(c > 0 ==> c >= 10) by (nonlinear_arith)
        requires
            c == (a.radius + b.radius) * 1000,
    ;
    let overlap = c * f - dist;
    lemma_div_trunc_rem(vx * overlap, 2 * dist);
    lemma_div_trunc_rem(vy * overlap, 2 * dist);
    assert(2 * dist * m.x == (2 * dist) * m.x && 2 * dist * m.y == (2 * dist) * m.y)
        by (nonlinear_arith);
    lemma_separation_bounds(vx, vy, c, f, dist, m.x, m.y);
}

/// The squared length of an offset scaled by `lim / dist`, each coordinate
/// rounded toward zero, is at most `lim²` when the offset is no longer than
/// `dist`.
proof fn lemma_scaled_norm(dx: int, dy: int, lim: int, dist: int)
    requires
        dist > 0,
        lim >= 0,
        norm_sq(dx, dy) <= dist * dist,
    ensures
        norm_sq(div_trunc(dx * lim, dist), div_trunc(dy * lim, dist)) <= lim * lim,
{
    let qx = div_trunc(dx * lim, dist);
    let qy = div_trunc(dy * lim, dist);
    lemma_div_trunc_abs(dx * lim, dist);
    lemma_div_trunc_abs(dy * lim, dist);
    assert(abs(dx * lim) == abs(dx) * lim) by (nonlinear_arith)
        requires
            lim >= 0,
            abs(dx * lim) == (if dx * lim < 0 { -(dx * lim) } else { dx * lim }),
            abs(dx) == (if dx < 0 { -dx } else { dx }),
    ;
    assert(abs(dy * lim) == abs(dy) * lim) by (nonlinear_arith)
        requires
            lim >= 0,
            abs(dy * lim) == (if dy * lim < 0 { -(dy * lim) } else { dy * lim }),
            abs(dy) == (if dy < 0 { -dy } else { dy }),
    ;
    let ax = abs(qx);
    let ay = abs(qy);
    let ex = abs(dx);
    let ey = abs(dy);
    assert(ax * ax * (dist * dist) <= ex * ex * (lim * lim)) by (nonlinear_arith)
        requires
            ax >= 0,
            dist > 0,
            ax * dist <= ex * lim,
    ;
    assert(ay * ay * (dist * dist) <= ey * ey * (lim * lim)) by (nonlinear_arith)
        requires
            ay >= 0,
            dist > 0,
            ay * dist <= ey * lim,
    ;
    assert(qx * qx == ax * ax && qy * qy == ay * ay && dx * dx == ex * ex && dy * dy == ey * ey)
        by (nonlinear_arith)
        requires
            ax == (if qx < 0 { -qx } else { qx }),
            ay == (if qy < 0 { -qy } else { qy }),
            ex == (if dx < 0 { -dx } else { dx }),
            ey == (if dy < 0 { -dy } else { dy }),
    ;
    let s = qx * qx + qy * qy;
    assert(s * (dist * dist) <= (dx * dx + dy * dy) * (lim * lim)) by (nonlinear_arith)
        requires
            s == qx * qx + qy * qy,
            qx * qx * (dist * dist) <= dx * dx * (lim * lim),
            qy * qy * (dist * dist) <= dy * dy * (lim * lim),
    ;
    assert(s <= lim * lim) by (nonlinear_arith)
        requires
            s * (dist * dist) <= (dx * dx + dy * dy) * (lim * lim),
            dx * dx + dy * dy <= dist * dist,
            dist > 0,
    ;
}

/// Containing a particle twice moves it no further than containing it once,
/// for a particle that fits inside the world.
pub proof fn lemma_contain_idempotent(w: WorldView, p: ParticleView)
    requires
        w.wf(),
        p.wf(),
        free_radius(w, p) >= 0,
    ensures
        contain_spec(w, contain_spec(w, p)) == contain_spec(w, p),
{
    let dx = p.cur.x - w.center.x;
    let dy = p.cur.y - w.center.y;
    let d2 = norm_sq(dx, dy);
    let lim = free_radius(w, p);
    if d2 > 0 && exceeds(d2, lim) {
        lemma_ceil_sqrt(d2);
        lemma_scaled_norm(dx, dy, lim, ceil_sqrt(d2));
    }
}

/// After containment a particle that fits inside the world lies within
/// `free_radius` of the centre.
pub proof fn lemma_contain_inside(w: WorldView, p: ParticleView)
    requires
        w.wf(),
        p.wf(),
        free_radius(w, p) >= 0,
    ensures
        ({
            let q = contain_spec(w, p);
            norm_sq(q.cur.x - w.center.x, q.cur.y - w.center.y) <= free_radius(w, p) * free_radius(w, p)
        }),
{
    let dx = p.cur.x - w.center.x;
    let dy = p.cur.y - w.center.y;
    let d2 = norm_sq(dx, dy);
    let lim = free_radius(w, p);
    if d2 > 0 && exceeds(d2, lim) {
        lemma_ceil_sqrt(d2);
        lemma_scaled_norm(dx, dy, lim, ceil_sqrt(d2));
    }
}

/// A fixed circular region that keeps particles inside.
#[derive(Clone, Copy, Debug)]
pub struct CircularWorld {
    radius: i64,
    position: Vec2,
}

impl View for CircularWorld {
    type V = WorldView;

    closed spec fn view(&self) -> WorldView {
        WorldView { radius: self.radius as int, center: self.position@ }
    }
}

impl CircularWorld {
    /// A world of the given radius around `position`.
    pub fn new(radius: i64, position: Vec2) -> (r: CircularWorld)
        requires
            0 < radius <= WORLD_LIMIT,
            within(position@, WORLD_LIMIT as int),
        ensures
            r@ == (WorldView { radius: radius as int, center: position@ }),
            r@.wf(),
    {
        CircularWorld { radius, position }
    }

    pub fn get_radius(&self) -> (r: i64)
        ensures
            r as int == self@.radius,
    {
        self.radius
    }

    pub fn get_position(&self) -> (r: Vec2)
        ensures
            r@ == self@.center,
    {
        self.position
    }

    /// Pulls a particle that reaches past the world's edge back inside.
    pub fn apply_margin(&self, particle: &mut Particle)
        requires
            self@.wf(),
            old(particle)@.wf(),
        ensures
            final(particle)@ == contain_spec(self@, old(particle)@),
            final(particle)@.wf(),
    {
        let pos = particle.get_current_pos();
        let dx: i128 = pos.x as i128 - self.position.x as i128;
        let dy: i128 = pos.y as i128 - self.position.y as i128;
        let pr: i128 = particle.get_radius() as i128;
        assert(0 <= pr * 1_000 <= 0x100_0000_0000) by (nonlinear_arith)
            requires
                0 <= pr <= 0x1_0000,
        ;
        let lim: i128 = self.radius as i128 - pr * (SCALE as i128);
        assert(0 <= dx * dx <= 0x4_0000_0000_0000_0000_0000) by (nonlinear_arith)
            requires
                -0x200_0000_0000 <= dx <= 0x200_0000_0000,
        ;
        assert(0 <= dy * dy <= 0x4_0000_0000_0000_0000_0000) by (nonlinear_arith)
            requires
                -0x200_0000_0000 <= dy <= 0x200_0000_0000,
        ;
        let d2: i128 = dx * dx + dy * dy;
        assert(d2 >= 0) by (nonlinear_arith)
            requires
                d2 == dx * dx + dy * dy,
        ;
        let outside = if d2 == 0 {
            false
        } else if lim < 0 {
            true
        } else {
            assert(0 <= lim * lim <= 0x1_0000_0000_0000_0000_0000) by (nonlinear_arith)
                requires
                    0 <= lim <= 0x100_0000_0000,
            ;
            d2 > lim * lim
        };
        if outside {
            let dist_u = ceil_sqrt_u128(d2 as u128);
            let dist: i128 = dist_u as i128;
            proof {
                lemma_ceil_sqrt(d2 as int);
                assert(dx * dx <= dist * dist) by (nonlinear_arith)
                    requires
                        dist * dist >= dx * dx + dy * dy,
                        dy * dy >= 0,
                ;
                assert(dy * dy <= dist * dist) by (nonlinear_arith)
                    requires
                        dist * dist >= dx * dx + dy * dy,
                        dx * dx >= 0,
                ;
                lemma_scaled_bound(dx as int, lim as int, dist as int);
                lemma_scaled_bound(dy as int, lim as int, dist as int);
            }
            assert(-0x1_0000_0000_0000_0000_0000_0000 < dx * lim < 0x1_0000_0000_0000_0000_0000_0000) by (nonlinear_arith)
                requires
                    -0x200_0000_0000 <= dx <= 0x200_0000_0000,
                    -0x100_0000_0000 <= lim <= 0x100_0000_0000,
            ;
            assert(-0x1_0000_0000_0000_0000_0000_0000 < dy * lim < 0x1_0000_0000_0000_0000_0000_0000) by (nonlinear_arith)
                requires
                    -0x200_0000_0000 <= dy <= 0x200_0000_0000,
                    -0x100_0000_0000 <= lim <= 0x100_0000_0000,
            ;
            let qx = trunc_div(dx * lim, dist);
            let qy = trunc_div(dy * lim, dist);
            let nx: i64 = (self.position.x as i128 + qx) as i64;
            let ny: i64 = (self.position.y as i128 + qy) as i64;
            particle.set_pos(Vec2 { x: nx, y: ny });
        }
    }

    /// Separates two overlapping particles symmetrically along the line of
    /// their centres.
    pub fn solve_collision(&self, particle1: &mut Particle, particle2: &mut Particle)
        requires
            old(particle1)@.wf(),
            old(particle2)@.wf(),
        ensures
            (final(particle1)@, final(particle2)@) == resolve_spec(old(particle1)@, old(particle2)@),
            final(particle1)@.wf(),
            final(particle2)@.wf(),
    {
        let pa = particle1.get_current_pos();
        let pb = particle2.get_current_pos();
        if pa == pb {
            return;
        }
        let dx: i128 = pa.x as i128 - pb.x as i128;
        let dy: i128 = pa.y as i128 - pb.y as i128;
        assert(0 <= dx * dx <= 0x100_0000_0000_0000_0000) by (nonlinear_arith)
            requires
                -0x10_0000_0000 <= dx <= 0x10_0000_0000,
        ;
        assert(0 <= dy * dy <= 0x100_0000_0000_0000_0000) by (nonlinear_arith)
            requires
                -0x10_0000_0000 <= dy <= 0x10_0000_0000,
        ;
        let d2: u128 = (dx * dx + dy * dy) as u128;
        let ff: u128 = (FRAC * FRAC) as u128;
        assert(d2 * ff <= 0x8000_0000_0000_0000_0000_0000_0000_0000) by (nonlinear_arith)
            requires
                d2 <= 0x200_0000_0000_0000_0000,
                ff == 0x40_0000_0000_0000,
        ;
        let dist: i128 = ceil_sqrt_u128(d2 * ff) as i128;
        proof {
            assert(d2 * ff > 0) by (nonlinear_arith)
                requires
                    d2 == dx * dx + dy * dy,
                    dx != 0 || dy != 0,
                    ff > 0,
            ;
            lemma_ceil_sqrt((d2 * ff) as int);
        }
        let rsum: i128 = particle1.get_radius() as i128 + particle2.get_radius() as i128;
        assert(0 <= rsum * 1_000 * 134_217_728 <= 0x40_0000_0000_0000) by (nonlinear_arith)
            requires
                0 <= rsum <= 0x2_0000,
        ;
        let contact: i128 = rsum * (SCALE as i128) * FRAC;
        let overlap: i128 = contact - dist;
        assert(-0x1_0000_0000_0000_0000_0000_0000_0000 < dx * overlap < 0x1_0000_0000_0000_0000_0000_0000_0000) by (nonlinear_arith)
            requires
                -0x10_0000_0000 <= dx <= 0x10_0000_0000,
                -0x2_0000_0000_0000_0000 <= overlap <= 0x2_0000_0000_0000_0000,
        ;
        assert(-0x1_0000_0000_0000_0000_0000_0000_0000 < dy * overlap < 0x1_0000_0000_0000_0000_0000_0000_0000) by (nonlinear_arith)
            requires
                -0x10_0000_0000 <= dy <= 0x10_0000_0000,
                -0x2_0000_0000_0000_0000 <= overlap <= 0x2_0000_0000_0000_0000,
        ;
        let mx = trunc_div(dx * overlap, 2 * dist);
        let my = trunc_div(dy * overlap, 2 * dist);
        proof {
            lemma_div_trunc_abs(dx * overlap, 2 * dist);
            lemma_div_trunc_abs(dy * overlap, 2 * dist);
        }
        let ax = clamp_i128(pa.x as i128 + mx);
        let ay = clamp_i128(pa.y as i128 + my);
        let bx = clamp_i128(pb.x as i128 - mx);
        let by = clamp_i128(pb.y as i128 - my);
        particle1.set_pos(Vec2 { x: ax, y: ay });
        particle2.set_pos(Vec2 { x: bx, y: by });
        if 10 * dist < 9 * contact {
            particle1.set_previous_pos(Vec2 { x: ax, y: ay });
            particle2.set_previous_pos(Vec2 { x: bx, y: by });
        }
    }
}

} // verus!
