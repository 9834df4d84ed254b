//! A small 2D particle engine: Verlet integration, pairwise overlap
//! resolution and containment inside a circular world.
//!
//! Lengths are fixed-point integers: one world unit is `SCALE` steps, so
//! every operation is exact integer arithmetic whose rounding is stated in
//! the contracts.
pub mod geometry;
pub mod particle;
pub mod particle_system;
pub mod world;
