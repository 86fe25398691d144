//! Physics-based animation primitives: a damped harmonic oscillator
//! ("spring") and a constant-acceleration projectile, advanced one fixed
//! time step per call.
//!
//! All quantities are fixed-point numbers: an `i64` counts units of
//! `1 / SCALE` (twelve decimal fractional digits). Every executable
//! function is verified against an exact integer model of its arithmetic,
//! so two calls on equal inputs always return bit-identical results.

pub mod fixed;
pub mod series;
pub mod projectile;
pub mod spring;

pub use fixed::SCALE;
pub use projectile::{Point, Projectile, Vector, gravity, terminal_gravity};
pub use spring::{AngularFrequency, DampingRatio, DeltaTime, EPSILON, Spring, fps};
