use particles::geometry::{ceil_sqrt_u128, trunc_div, Vec2, LIMIT, SCALE};
use particles::particle::{Color, Particle};
use particles::particle_system::{default_gravity, ParticleSystem};
use particles::world::CircularWorld;

const BLACK: Color = Color { r: 0, g: 0, b: 0 };

fn at(x: i64, y: i64, radius: u16, id: u32) -> Particle {
    Particle::new(Vec2::new(x, y), radius, 1, Vec2::zero(), BLACK, id)
}

fn world_100() -> CircularWorld {
    CircularWorld::new(100 * SCALE, Vec2::new(0, 0))
}

#[test]
fn contain_moves_particle_to_the_edge() {
    let w = world_100();
    let mut p = at(95 * SCALE, 0, 10, 0);
    w.apply_margin(&mut p);
    assert_eq!(p.get_current_pos(), Vec2::new(90 * SCALE, 0));
    assert_eq!(p.get_previous_pos(), Vec2::new(95 * SCALE, 0));
}

#[test]
fn contain_leaves_inside_particle_alone() {
    let w = world_100();
    let mut p = at(50 * SCALE, -30 * SCALE, 10, 0);
    w.apply_margin(&mut p);
    assert_eq!(p.get_current_pos(), Vec2::new(50 * SCALE, -30 * SCALE));
}

#[test]
fn contain_twice_equals_contain_once() {
    let w = CircularWorld::new(100 * SCALE, Vec2::new(3 * SCALE, -7 * SCALE));
    let mut p = at(83 * SCALE, 71 * SCALE + 12_345, 7, 0);
    w.apply_margin(&mut p);
    let once = p.get_current_pos();
    assert_ne!(once, Vec2::new(83 * SCALE, 71 * SCALE + 12_345));
    w.apply_margin(&mut p);
    assert_eq!(p.get_current_pos(), once);
    let dx = (once.x - 3 * SCALE) as i128;
    let dy = (once.y + 7 * SCALE) as i128;
    let lim = (93 * SCALE) as i128;
    assert!(dx * dx + dy * dy <= lim * lim);
}

#[test]
fn overlapping_pair_collides_and_separates() {
    let w = world_100();
    let mut a = at(0, 0, 5, 0);
    let mut b = at(6 * SCALE, 0, 5, 1);
    assert!(a.is_colliding(&b));
    w.solve_collision(&mut a, &mut b);
    assert_eq!(a.get_current_pos(), Vec2::new(-2 * SCALE, 0));
    assert_eq!(b.get_current_pos(), Vec2::new(8 * SCALE, 0));
    assert_eq!(b.get_current_pos().x - a.get_current_pos().x, 10 * SCALE);
    assert_eq!(a.get_current_pos().x + b.get_current_pos().x, 6 * SCALE);
    // distance 6 is below 0.9 * 10: both velocities are cleared
    assert_eq!(a.get_previous_pos(), a.get_current_pos());
    assert_eq!(b.get_previous_pos(), b.get_current_pos());
    assert!(!a.is_colliding(&b));
}

#[test]
fn shallow_collision_keeps_previous_positions() {
    let w = world_100();
    let mut a = at(0, 0, 5, 0);
    let mut b = at(9_500, 0, 5, 1);
    a.set_previous_pos(Vec2::new(-1, 0));
    w.solve_collision(&mut a, &mut b);
    assert_eq!(a.get_current_pos(), Vec2::new(-250, 0));
    assert_eq!(b.get_current_pos(), Vec2::new(9_750, 0));
    assert_eq!(a.get_previous_pos(), Vec2::new(-1, 0));
    assert_eq!(b.get_previous_pos(), Vec2::new(9_500, 0));
}

#[test]
fn touching_circles_do_not_collide() {
    let a = at(0, 0, 5, 0);
    let b = at(6 * SCALE, 8 * SCALE, 5, 1);
    assert!(!a.is_colliding(&b));
    let c = at(6 * SCALE, 8 * SCALE - 1, 5, 2);
    assert!(a.is_colliding(&c));
}

#[test]
fn collision_order_does_not_matter() {
    let w = world_100();
    let a0 = at(1_234, -2_001, 4, 0);
    let b0 = at(3_003, 1_500, 3, 1);
    let (mut a1, mut b1) = (a0, b0);
    w.solve_collision(&mut a1, &mut b1);
    let (mut a2, mut b2) = (a0, b0);
    w.solve_collision(&mut b2, &mut a2);
    assert_eq!(a1.get_current_pos(), a2.get_current_pos());
    assert_eq!(b1.get_current_pos(), b2.get_current_pos());
    assert_ne!(a1.get_current_pos(), a0.get_current_pos());
}

#[test]
fn separated_distance_is_close_to_contact() {
    let w = world_100();
    let mut a = at(1_234, -2_001, 4, 0);
    let mut b = at(3_003, 1_500, 3, 1);
    w.solve_collision(&mut a, &mut b);
    let dx = (a.get_current_pos().x - b.get_current_pos().x) as f64;
    let dy = (a.get_current_pos().y - b.get_current_pos().y) as f64;
    let d = (dx * dx + dy * dy).sqrt();
    assert!((d - 7_000.0).abs() < 10.0);
}

#[test]
fn centres_one_step_apart_separate_to_contact() {
    let w = world_100();
    let mut a = at(1, 1, 5, 0);
    let mut b = at(0, 0, 5, 1);
    assert!(a.is_colliding(&b));
    w.solve_collision(&mut a, &mut b);
    let pa = a.get_current_pos();
    let pb = b.get_current_pos();
    // half of 10 units minus sqrt(2) steps, along (1, 1) / sqrt(2)
    let half = (10_000.0 - 2f64.sqrt()) / 2.0 / 2f64.sqrt();
    assert!((pa.x as f64 - (1.0 + half)).abs() <= 2.0);
    assert!((pa.y as f64 - (1.0 + half)).abs() <= 2.0);
    assert!((pb.x as f64 + half).abs() <= 2.0);
    assert!((pb.y as f64 + half).abs() <= 2.0);
    let dx = (pa.x - pb.x) as f64;
    let dy = (pa.y - pb.y) as f64;
    assert!(((dx * dx + dy * dy).sqrt() - 10_000.0).abs() < 10.0);
}

#[test]
fn coincident_centres_are_left_alone() {
    let w = world_100();
    let mut a = at(SCALE, SCALE, 5, 0);
    let mut b = at(SCALE, SCALE, 5, 1);
    w.solve_collision(&mut a, &mut b);
    assert_eq!(a.get_current_pos(), Vec2::new(SCALE, SCALE));
    assert_eq!(b.get_current_pos(), Vec2::new(SCALE, SCALE));
}

#[test]
fn force_then_step_moves_by_a_dt_squared() {
    let mut p = Particle::new(Vec2::new(0, 0), 5, 2, Vec2::zero(), BLACK, 0);
    p.apply_force(Vec2::new(0, 2000 * SCALE));
    assert_eq!(p.get_acceleration(), Vec2::new(0, 1000 * SCALE));
    p.update_pos(10_000);
    assert_eq!(p.get_current_pos(), Vec2::new(0, SCALE / 10));
    assert_eq!(p.get_previous_pos(), Vec2::new(0, 0));
    assert_eq!(p.get_acceleration(), Vec2::zero());
}

#[test]
fn forces_accumulate() {
    let mut p = Particle::new(Vec2::new(0, 0), 5, 3, Vec2::zero(), BLACK, 0);
    p.apply_force(Vec2::new(10, -10));
    p.apply_force(Vec2::new(-4, 7));
    assert_eq!(p.get_acceleration(), Vec2::new(3 - 1, -3 + 2));
}

#[test]
fn verlet_keeps_velocity_without_forces() {
    let mut p = at(10 * SCALE, 4 * SCALE, 1, 0);
    p.set_previous_pos(Vec2::new(9 * SCALE, 5 * SCALE));
    p.update_pos(16_667);
    assert_eq!(p.get_current_pos(), Vec2::new(11 * SCALE, 3 * SCALE));
    assert_eq!(p.get_previous_pos(), Vec2::new(10 * SCALE, 4 * SCALE));
    p.update_pos(16_667);
    assert_eq!(p.get_current_pos(), Vec2::new(12 * SCALE, 2 * SCALE));
}

#[test]
fn positions_saturate_at_the_limit() {
    let mut p = at(LIMIT, 0, 1, 0);
    p.set_previous_pos(Vec2::new(LIMIT - 5, 0));
    p.update_pos(0);
    assert_eq!(p.get_current_pos(), Vec2::new(LIMIT, 0));
}

#[test]
fn identity_is_by_id() {
    let a = at(0, 0, 5, 7);
    let b = at(40 * SCALE, 0, 9, 7);
    let c = at(0, 0, 5, 8);
    assert!(a.is_equals_to(&b));
    assert!(!a.is_equals_to(&c));
}

#[test]
fn add_particle_assigns_consecutive_ids() {
    let mut sys = ParticleSystem::new(world_100(), default_gravity());
    let mut tpl = at(0, 0, 3, 5);
    sys.add_particle(&mut tpl, 3);
    assert_eq!(sys.len(), 3);
    assert_eq!(sys.particle(0).get_id(), 5);
    assert_eq!(sys.particle(1).get_id(), 6);
    assert_eq!(sys.particle(2).get_id(), 7);
    assert_eq!(tpl.get_id(), 5);
    sys.add_particle(&mut tpl, 0);
    assert_eq!(sys.len(), 3);
}

#[test]
fn step_applies_gravity_and_integrates() {
    let mut sys = ParticleSystem::new(world_100(), default_gravity());
    assert_eq!(default_gravity(), Vec2::new(0, 2000 * SCALE));
    let mut p = at(0, 0, 1, 0);
    sys.add_particle(&mut p, 1);
    sys.step(10_000);
    let q = sys.particle(0);
    assert_eq!(q.get_current_pos(), Vec2::new(0, SCALE / 5));
    assert_eq!(q.get_previous_pos(), Vec2::new(0, 0));
    sys.step(10_000);
    assert_eq!(sys.particle(0).get_current_pos(), Vec2::new(0, 3 * SCALE / 5));
}

#[test]
fn step_contains_before_integrating() {
    let mut sys = ParticleSystem::new(world_100(), Vec2::zero());
    let mut p = at(95 * SCALE, 0, 10, 0);
    sys.add_particle(&mut p, 1);
    sys.step(10_000);
    // moved to the edge, then the wall correction becomes velocity
    assert_eq!(sys.particle(0).get_current_pos(), Vec2::new(85 * SCALE, 0));
    assert_eq!(sys.particle(0).get_previous_pos(), Vec2::new(90 * SCALE, 0));
}

#[test]
fn step_resolves_pairs_with_distinct_ids() {
    let mut sys = ParticleSystem::new(world_100(), Vec2::zero());
    let mut a = at(0, 0, 5, 0);
    let mut b = at(6 * SCALE, 0, 5, 1);
    sys.add_particle(&mut a, 1);
    sys.add_particle(&mut b, 1);
    sys.step(10_000);
    assert_eq!(sys.particle(0).get_current_pos(), Vec2::new(-2 * SCALE, 0));
    assert_eq!(sys.particle(1).get_current_pos(), Vec2::new(8 * SCALE, 0));
}

#[test]
fn step_never_resolves_equal_ids() {
    let mut sys = ParticleSystem::new(world_100(), Vec2::zero());
    let mut a = at(0, 0, 5, 4);
    let mut b = at(6 * SCALE, 0, 5, 4);
    sys.add_particle(&mut a, 1);
    sys.add_particle(&mut b, 1);
    sys.step(10_000);
    assert_eq!(sys.particle(0).get_current_pos(), Vec2::new(0, 0));
    assert_eq!(sys.particle(1).get_current_pos(), Vec2::new(6 * SCALE, 0));
}

#[test]
fn ceil_sqrt_rounds_up() {
    assert_eq!(ceil_sqrt_u128(0), 0);
    assert_eq!(ceil_sqrt_u128(1), 1);
    assert_eq!(ceil_sqrt_u128(2), 2);
    assert_eq!(ceil_sqrt_u128(4), 2);
    assert_eq!(ceil_sqrt_u128(5), 3);
    assert_eq!(ceil_sqrt_u128(36_000_000_000_000), 6_000_000);
    assert_eq!(ceil_sqrt_u128(36_000_000_000_001), 6_000_001);
    assert_eq!(ceil_sqrt_u128(1 << 126), 1 << 63);
    assert_eq!(ceil_sqrt_u128((1 << 126) + 1), (1 << 63) + 1);
}

#[test]
fn division_truncates_toward_zero() {
    assert_eq!(trunc_div(7, 2), 3);
    assert_eq!(trunc_div(-7, 2), -3);
    assert_eq!(trunc_div(-6, 3), -2);
}

#[test]
fn setters_change_one_field() {
    let mut p = at(1, 2, 3, 4);
    p.set_radius(9);
    p.set_mass(5);
    p.set_id(11);
    p.set_pos(Vec2::new(7, 8));
    p.set_acceleration(Vec2::new(-1, 1));
    assert_eq!(p.get_radius(), 9);
    assert_eq!(p.get_mass(), 5);
    assert_eq!(p.get_id(), 11);
    assert_eq!(p.get_current_pos(), Vec2::new(7, 8));
    assert_eq!(p.get_previous_pos(), Vec2::new(1, 2));
    assert_eq!(p.get_acceleration(), Vec2::new(-1, 1));
    assert_eq!(p.get_color(), BLACK);
}
