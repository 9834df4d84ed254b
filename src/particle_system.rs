use vstd::prelude::*;

use crate::geometry::{Point, Vec2, SCALE};
use crate::particle::{
    apply_force_spec, colliding, integrate_spec, Particle, ParticleView,
};
use crate::world::{contain_spec, resolve_spec, CircularWorld, WorldView};

verus! {

/// The mathematical state of a simulation.
pub struct SystemView {
    pub particles: Seq<ParticleView>,
    pub world: WorldView,
    pub gravity: Point,
}

/// Every particle of the sequence is well formed.
pub open spec fn all_wf(ps: Seq<ParticleView>) -> bool {
    forall|k: int| 0 <= k < ps.len() ==> #[trigger] ps[k].wf()
}

impl SystemView {
    pub open spec fn wf(self) -> bool {
        self.world.wf() && all_wf(self.particles)
    }
}

/// The views of a sequence of particles.
pub open spec fn views(v: Seq<Particle>) -> Seq<ParticleView> {
    v.map_values(|p: Particle| p@)
}

/// Particle `p`, taken out of index `i`, meets the others at indices below
/// `j` in order: each other one with another id that it overlaps is
/// resolved against it. Returns `p` and the sequence afterwards.
pub open spec fn collide_upto(ps: Seq<ParticleView>, p: ParticleView, i: int, j: int) -> (
    ParticleView,
    Seq<ParticleView>,
)
    decreases j,
{
    if j <= 0 {
        (p, ps)
    } else {
        let (q, qs) = collide_upto(ps, p, i, j - 1);
        let k = j - 1;
        if k != i && q.id != qs[k].id && colliding(q, qs[k]) {
            let (a, b) = resolve_spec(q, qs[k]);
            (a, qs.update(k, b))
        } else {
            (q, qs)
        }
    }
}

/// The turn of the particle at index `i`: gravity, containment, collisions
/// with every other particle, integration.
pub open spec fn step_particle(
    ps: Seq<ParticleView>,
    i: int,
    w: WorldView,
    g: Point,
    dt: int,
) -> Seq<ParticleView> {
    let p = contain_spec(w, apply_force_spec(ps[i], g));
    let (q, qs) = collide_upto(ps, p, i, ps.len() as int);
    qs.update(i, integrate_spec(q, dt))
}

/// The turns of the particles at indices below `i`, in order.
pub open spec fn step_upto(ps: Seq<ParticleView>, w: WorldView, g: Point, dt: int, i: int) -> Seq<
    ParticleView,
>
    decreases i,
{
    if i <= 0 {
        ps
    } else {
        step_particle(step_upto(ps, w, g, dt, i - 1), i - 1, w, g, dt)
    }
}

/// One whole step of the simulation.
pub open spec fn step_spec(ps: Seq<ParticleView>, w: WorldView, g: Point, dt: int) -> Seq<
    ParticleView,
> {
    step_upto(ps, w, g, dt, ps.len() as int)
}

/// A particle is never resolved against itself: while the particle at
/// index `i` meets the others, that index and every particle with the same
/// id are left untouched, and the moving particle keeps its id.
pub proof fn lemma_no_self_resolution(ps: Seq<ParticleView>, p: ParticleView, i: int, j: int)
    requires
        0 <= i < ps.len(),
        0 <= j <= ps.len(),
    ensures
        collide_upto(ps, p, i, j).0.id == p.id,
        collide_upto(ps, p, i, j).1.len() == ps.len(),
        forall|k: int|
            0 <= k < ps.len() && (k == i || ps[k].id == p.id) ==> #[trigger] collide_upto(
                ps,
                p,
                i,
                j,
            ).1[k] == ps[k],
    decreases j,
{
    if j > 0 {
        lemma_no_self_resolution(ps, p, i, j - 1);
    }
}

/// `count` copies of `p`, the `k`-th with id `p.id + k`.
pub open spec fn copies(p: ParticleView, count: int) -> Seq<ParticleView> {
    Seq::new(count as nat, |k: int| ParticleView { id: p.id + k, ..p })
}

/// The default gravity: a downward force of 2000 units.
pub fn default_gravity() -> (r: Vec2)
    ensures
        r@ == (Point { x: 0, y: 2000 * SCALE }),
{
    Vec2 { x: 0, y: 2000 * SCALE }
}

/// A set of particles inside a circular world, under constant gravity.
pub struct ParticleSystem {
    particles_list: Vec<Particle>,
    world: CircularWorld,
    gravity: Vec2,
}

impl View for ParticleSystem {
    type V = SystemView;

    closed spec fn view(&self) -> SystemView {
        SystemView {
            particles: views(self.particles_list@),
            world: self.world@,
            gravity: self.gravity@,
        }
    }
}

impl ParticleSystem {
    /// An empty system in `world`, pulled by `gravity`.
    pub fn new(world: CircularWorld, gravity: Vec2) -> (r: ParticleSystem)
        requires
            world@.wf(),
        ensures
            r@ == (SystemView { particles: Seq::empty(), world: world@, gravity: gravity@ }),
            r@.wf(),
    {
        let r = ParticleSystem { particles_list: Vec::new(), world, gravity };
        assert(r@.particles =~= Seq::empty());
        r
    }

    /// Advances every particle by one step of `dt` ticks, in insertion order.
    pub fn step(&mut self, dt: u32)
        requires
            old(self)@.wf(),
        ensures
            final(self)@ == (SystemView {
                particles: step_spec(old(self)@.particles, old(self)@.world, old(self)@.gravity, dt as int),
                ..old(self)@
            }),
            final(self)@.wf(),
    {
        let ghost ps_start = self@.particles;
        let ghost w = self@.world;
        let ghost g = self@.gravity;
        let n = self.particles_list.len();
        let mut i: usize = 0;
        while i < n
            invariant
                0 <= i <= n,
                self.particles_list.len() == n,
                self@.world == w,
                self@.gravity == g,
                w.wf(),
                ps_start.len() == n,
                self@.particles == step_upto(ps_start, w, g, dt as int, i as int),
                all_wf(self@.particles),
            decreases n - i,
        {
            let ghost ps_turn = self@.particles;
            let mut p = self.particles_list[i];
            assert(p@ == ps_turn[i as int]);
            p.apply_force(self.gravity);
            self.world.apply_margin(&mut p);
            let ghost p_met = p@;
            let mut j: usize = 0;
            while j < n
                invariant
                    0 <= i < n,
                    0 <= j <= n,
                    self.particles_list.len() == n,
                    self@.world == w,
                    self@.gravity == g,
                    w.wf(),
                    ps_turn.len() == n,
                    (p@, self@.particles) == collide_upto(ps_turn, p_met, i as int, j as int),
                    p@.wf(),
                    all_wf(self@.particles),
                decreases n - j,
            {
                if j != i {
                    let mut other = self.particles_list[j];
                    assert(other@ == self@.particles[j as int]);
                    if !p.is_equals_to(&other) && p.is_colliding(&other) {
                        let ghost before = self.particles_list@;
                        self.world.solve_collision(&mut p, &mut other);
                        self.particles_list.set(j, other);
                        assert(views(self.particles_list@) =~= views(before).update(
                            j as int,
                            other@,
                        ));
                    }
                }
                j += 1;
            }
            let ghost before = self.particles_list@;
            p.update_pos(dt);
            self.particles_list.set(i, p);
            assert(views(self.particles_list@) =~= views(before).update(i as int, p@));
            i += 1;
        }
    }

    /// Appends `number_of_particles` copies of `particle`, the `k`-th with
    /// id `id + k`.
    pub fn add_particle(&mut self, particle: &mut Particle, number_of_particles: u32)
        requires
            old(self)@.wf(),
            old(particle)@.wf(),
            old(particle)@.id + number_of_particles <= u32::MAX + 1,
        ensures
            final(self)@ == (SystemView {
                particles: old(self)@.particles + copies(old(particle)@, number_of_particles as int),
                ..old(self)@
            }),
            final(self)@.wf(),
            final(particle)@ == old(particle)@,
    {
        let ghost start = self@.particles;
        let ghost tpl = particle@;
        let mut i: u32 = 0;
        while i < number_of_particles
            invariant
                0 <= i <= number_of_particles,
                particle@ == tpl,
                tpl.wf(),
                tpl.id + number_of_particles <= u32::MAX + 1,
                self@.world == old(self)@.world,
                self@.gravity == old(self)@.gravity,
                self@.particles =~= start + copies(tpl, i as int),
            decreases number_of_particles - i,
        {
            let mut new_part = *particle;
            new_part.set_id(i + new_part.get_id());
            let ghost before = self.particles_list@;
            self.particles_list.push(new_part);
            assert(views(self.particles_list@) =~= views(before).push(new_part@));
            assert(copies(tpl, i as int + 1) =~= copies(tpl, i as int).push(new_part@));
            i += 1;
        }
        assert(all_wf(self@.particles)) by {
            assert forall|k: int| 0 <= k < self@.particles.len() implies #[trigger] self@.particles[k].wf() by {
                if k >= start.len() {
                    assert(self@.particles[k] == copies(tpl, number_of_particles as int)[k - start.len()]);
                }
            }
        }
    }

    /// The number of particles.
    pub fn len(&self) -> (r: usize)
        ensures
            r == self@.particles.len(),
    {
        self.particles_list.len()
    }

    /// The particle at index `i`.
    pub fn particle(&self, i: usize) -> (r: Particle)
        requires
            i < self@.particles.len(),
        ensures
            r@ == self@.particles[i as int],
    {
        self.particles_list[i]
    }

    pub fn world(&self) -> (r: CircularWorld)
        ensures
            r@ == self@.world,
    {
        self.world
    }

    pub fn gravity(&self) -> (r: Vec2)
        ensures
            r@ == self@.gravity,
    {
        self.gravity
    }
}

} // verus!
