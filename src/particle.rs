use vstd::prelude::*;

use crate::geometry::{
    clamp, clamp_i128, div_trunc, lemma_div_trunc_abs, norm_sq, trunc_div, within, Point, Vec2, LIMIT, SCALE,
    TICKS_PER_SECOND_SQ,
};

verus! {

/// An opaque colour tag, carried for the renderer.
#[derive(Clone, Copy, Debug, PartialEq, Eq, Structural)]
pub struct Color {
    pub r: u8,
    pub g: u8,
    pub b: u8,
}

/// The mathematical state of a particle.
pub struct ParticleView {
    pub id: int,
    pub cur: Point,
    pub prev: Point,
    pub radius: int,
    pub mass: int,
    pub acc: Point,
    pub color: Color,
}

impl ParticleView {
    /// Coordinates and acceleration are in range and the mass is positive.
    pub open spec fn wf(self) -> bool {
        &&& within(self.cur, LIMIT as int)
        &&& within(self.prev, LIMIT as int)
        &&& within(self.acc, LIMIT as int)
        &&& self.mass > 0
        &&& 0 <= self.radius <= u16::MAX
        &&& 0 <= self.id <= u32::MAX
    }

    /// The Verlet velocity: the displacement since the previous step.
    pub open spec fn velocity(self) -> Point {
        Point { x: self.cur.x - self.prev.x, y: self.cur.y - self.prev.y }
    }
}

pub open spec fn ticks_sq() -> int {
    TICKS_PER_SECOND_SQ as int
}

/// `force / mass` added to the acceleration, saturated.
pub open spec fn apply_force_spec(p: ParticleView, f: Point) -> ParticleView {
    ParticleView {
        acc: Point {
            x: clamp(p.acc.x + div_trunc(f.x, p.mass)),
            y: clamp(p.acc.y + div_trunc(f.y, p.mass)),
        },
        ..p
    }
}

/// The displacement `a * dt²` of one component, with `dt` in ticks.
pub open spec fn displacement(a: int, dt: int) -> int {
    div_trunc(a * dt * dt, ticks_sq())
}

/// One Verlet step: `cur + (cur - prev) + acc * dt²`; the old position
/// becomes the previous one and the acceleration is cleared.
pub open spec fn integrate_spec(p: ParticleView, dt: int) -> ParticleView {
    ParticleView {
        cur: Point {
            x: clamp(p.cur.x + (p.cur.x - p.prev.x) + displacement(p.acc.x, dt)),
            y: clamp(p.cur.y + (p.cur.y - p.prev.y) + displacement(p.acc.y, dt)),
        },
        prev: p.cur,
        acc: Point { x: 0, y: 0 },
        ..p
    }
}

/// The sum of the radii, in fixed-point steps.
pub open spec fn contact_distance(a: ParticleView, b: ParticleView) -> int {
    (a.radius + b.radius) * SCALE
}

/// The circles overlap: the squared sum of radii exceeds the squared
/// distance of the centres (touching circles do not collide).
pub open spec fn colliding(a: ParticleView, b: ParticleView) -> bool {
    contact_distance(a, b) * contact_distance(a, b) > norm_sq(
        b.cur.x - a.cur.x,
        b.cur.y - a.cur.y,
    )
}

/// With no accumulated acceleration a Verlet step keeps the velocity: the
/// new displacement equals the one before the step, and the position before
/// the step becomes the previous one. Holds wherever the new position is in
/// range (beyond it positions saturate).
pub proof fn lemma_verlet_constant_velocity(p: ParticleView, dt: int)
    requires
        p.wf(),
        p.acc == (Point { x: 0, y: 0 }),
        within(Point { x: 2 * p.cur.x - p.prev.x, y: 2 * p.cur.y - p.prev.y }, LIMIT as int),
    ensures
        integrate_spec(p, dt).velocity() == p.velocity(),
        integrate_spec(p, dt).prev == p.cur,
        integrate_spec(p, dt).acc == (Point { x: 0, y: 0 }),
{
    assert(0 * dt * dt == 0) by (nonlinear_arith);
}

/// Over two force-free Verlet steps, whatever their lengths, the velocity
/// stays the one before the first step (wherever both new positions are in
/// range).
pub proof fn lemma_verlet_two_steps(p: ParticleView, dt1: int, dt2: int)
    requires
        p.wf(),
        p.acc == (Point { x: 0, y: 0 }),
        within(Point { x: 2 * p.cur.x - p.prev.x, y: 2 * p.cur.y - p.prev.y }, LIMIT as int),
        within(Point { x: 3 * p.cur.x - 2 * p.prev.x, y: 3 * p.cur.y - 2 * p.prev.y }, LIMIT as int),
    ensures
        integrate_spec(integrate_spec(p, dt1), dt2).velocity() == p.velocity(),
{
    lemma_verlet_constant_velocity(p, dt1);
    lemma_verlet_constant_velocity(integrate_spec(p, dt1), dt2);
}

/// A circular body whose velocity is implied by its last two positions.
#[derive(Clone, Copy, Debug)]
pub struct Particle {
    id: u32,
    current_pos: Vec2,
    previous_pos: Vec2,
    radius: u16,
    mass: u32,
    acceleration: Vec2,
    color: Color,
}

impl View for Particle {
    type V = ParticleView;

    closed spec fn view(&self) -> ParticleView {
        ParticleView {
            id: self.id as int,
            cur: self.current_pos@,
            prev: self.previous_pos@,
            radius: self.radius as int,
            mass: self.mass as int,
            acc: self.acceleration@,
            color: self.color,
        }
    }
}

impl Particle {
    /// A particle at rest at `pos`.
    pub fn new(pos: Vec2, radius: u16, mass: u32, acceleration: Vec2, color: Color, id: u32) -> (r:
        Particle)
        requires
            within(pos@, LIMIT as int),
            within(acceleration@, LIMIT as int),
            mass > 0,
        ensures
            r@ == (ParticleView {
                id: id as int,
                cur: pos@,
                prev: pos@,
                radius: radius as int,
                mass: mass as int,
                acc: acceleration@,
                color,
            }),
            r@.wf(),
    {
        Particle {
            id,
            current_pos: pos,
            previous_pos: pos,
            radius,
            mass,
            acceleration,
            color,
        }
    }

    /// Advances the particle by one Verlet step of `dt` ticks.
    pub fn update_pos(&mut self, dt: u32)
        requires
            old(self)@.wf(),
        ensures
            final(self)@ == integrate_spec(old(self)@, dt as int),
            final(self)@.wf(),
    {
        let tsq: i128 = TICKS_PER_SECOND_SQ;
        let d: i128 = dt as i128;
        let ax: i128 = self.acceleration.x as i128;
        let ay: i128 = self.acceleration.y as i128;
        assert(-0x1_0000_0000_0000_0000_0000_0000_0000 < ax * d < 0x1_0000_0000_0000_0000_0000_0000_0000
            && -0x1_0000_0000_0000_0000_0000_0000_0000 < ax * d * d < 0x1_0000_0000_0000_0000_0000_0000_0000) by (nonlinear_arith)
            requires
                -0x100_0000_0000 <= ax <= 0x100_0000_0000,
                0 <= d < 0x1_0000_0000,
        ;
        assert(-0x1_0000_0000_0000_0000_0000_0000_0000 < ay * d < 0x1_0000_0000_0000_0000_0000_0000_0000
            && -0x1_0000_0000_0000_0000_0000_0000_0000 < ay * d * d < 0x1_0000_0000_0000_0000_0000_0000_0000) by (nonlinear_arith)
            requires
                -0x100_0000_0000 <= ay <= 0x100_0000_0000,
                0 <= d < 0x1_0000_0000,
        ;
        let dx = trunc_div(ax * d * d, tsq);
        let dy = trunc_div(ay * d * d, tsq);
        proof {
            lemma_div_trunc_abs(ax * d * d, tsq as int);
            lemma_div_trunc_abs(ay * d * d, tsq as int);
        }
        let cx: i128 = self.current_pos.x as i128;
        let cy: i128 = self.current_pos.y as i128;
        let px: i128 = self.previous_pos.x as i128;
        let py: i128 = self.previous_pos.y as i128;
        let nx = clamp_i128(cx + (cx - px) + dx);
        let ny = clamp_i128(cy + (cy - py) + dy);
        self.previous_pos = self.current_pos;
        self.current_pos = Vec2 { x: nx, y: ny };
        self.acceleration = Vec2 { x: 0, y: 0 };
    }

    /// Adds `force / mass` to the accumulated acceleration.
    pub fn apply_force(&mut self, force: Vec2)
        requires
            old(self)@.wf(),
        ensures
            final(self)@ == apply_force_spec(old(self)@, force@),
            final(self)@.wf(),
    {
        let m: i128 = self.mass as i128;
        let qx = trunc_div(force.x as i128, m);
        let qy = trunc_div(force.y as i128, m);
        proof {
            lemma_div_trunc_abs(force.x as int, m as int);
            lemma_div_trunc_abs(force.y as int, m as int);
        }
        let ax = clamp_i128(self.acceleration.x as i128 + qx);
        let ay = clamp_i128(self.acceleration.y as i128 + qy);
        self.acceleration = Vec2 { x: ax, y: ay };
    }

    /// Whether the two circles overlap (touching is not colliding).
    pub fn is_colliding(&self, other_particle: &Particle) -> (r: bool)
        requires
            self@.wf(),
            other_particle@.wf(),
        ensures
            r == colliding(self@, other_particle@),
    {
        let rsum: i128 = self.radius as i128 + other_particle.radius as i128;
        assert(0 <= rsum * 1_000 <= 0x200_0000_0000) by (nonlinear_arith)
            requires
                0 <= rsum <= 0x2_0000,
        ;
        let t: i128 = rsum * (SCALE as i128);
        let dx: i128 = other_particle.current_pos.x as i128 - self.current_pos.x as i128;
        let dy: i128 = other_particle.current_pos.y as i128 - self.current_pos.y as i128;
        assert(0 <= dx * dx <= 0x10_0000_0000_0000_0000_0000) by (nonlinear_arith)
            requires
                -0x200_0000_0000 <= dx <= 0x200_0000_0000,
        ;
        assert(0 <= dy * dy <= 0x10_0000_0000_0000_0000_0000) by (nonlinear_arith)
            requires
                -0x200_0000_0000 <= dy <= 0x200_0000_0000,
        ;
        assert(0 <= t * t <= 0x10_0000_0000_0000_0000_0000) by (nonlinear_arith)
            requires
                0 <= t <= 0x200_0000_0000,
        ;
        t * t > dx * dx + dy * dy
    }

    /// Identity by id: two instances with the same id are the same particle.
    pub fn is_equals_to(&self, other: &Particle) -> (r: bool)
        ensures
            r == (self@.id == other@.id),
    {
        self.id == other.id
    }

    pub fn get_previous_pos(&self) -> (r: Vec2)
        ensures
            r@ == self@.prev,
    {
        self.previous_pos
    }

    pub fn get_id(&self) -> (r: u32)
        ensures
            r as int == self@.id,
    {
        self.id
    }

    pub fn get_radius(&self) -> (r: u16)
        ensures
            r as int == self@.radius,
    {
        self.radius
    }

    pub fn get_current_pos(&self) -> (r: Vec2)
        ensures
            r@ == self@.cur,
    {
        self.current_pos
    }

    pub fn get_mass(&self) -> (r: u32)
        ensures
            r as int == self@.mass,
    {
        self.mass
    }

    pub fn get_acceleration(&self) -> (r: Vec2)
        ensures
            r@ == self@.acc,
    {
        self.acceleration
    }

    pub fn get_color(&self) -> (r: Color)
        ensures
            r == self@.color,
    {
        self.color
    }

    pub fn set_previous_pos(&mut self, prev: Vec2)
        requires
            within(prev@, LIMIT as int),
        ensures
            final(self)@ == (ParticleView { prev: prev@, ..old(self)@ }),
    {
        self.previous_pos = prev;
    }

    pub fn set_pos(&mut self, pos: Vec2)
        requires
            within(pos@, LIMIT as int),
        ensures
            final(self)@ == (ParticleView { cur: pos@, ..old(self)@ }),
    {
        self.current_pos = pos;
    }

    pub fn set_radius(&mut self, rad: u16)
        ensures
            final(self)@ == (ParticleView { radius: rad as int, ..old(self)@ }),
    {
        self.radius = rad;
    }

    /// Sets the mass; a zero mass is the caller's error.
    pub fn set_mass(&mut self, mass: u32)
        requires
            mass > 0,
        ensures
            final(self)@ == (ParticleView { mass: mass as int, ..old(self)@ }),
    {
        self.mass = mass;
    }

    pub fn set_acceleration(&mut self, acc: Vec2)
        requires
            within(acc@, LIMIT as int),
        ensures
            final(self)@ == (ParticleView { acc: acc@, ..old(self)@ }),
    {
        self.acceleration = acc;
    }

    pub fn set_id(&mut self, id: u32)
        ensures
            final(self)@ == (ParticleView { id: id as int, ..old(self)@ }),
    {
        self.id = id;
    }
}

} // verus!
