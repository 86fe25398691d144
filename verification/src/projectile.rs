//! Constant-acceleration projectile motion.
//!
//! A projectile owns a position, a velocity, a fixed acceleration and a
//! fixed time step, and advances them one step per `update` call by
//! semi-implicit Euler integration: the position moves by the velocity
//! the step started with, and only then does the acceleration change the
//! velocity. The ordering is part of the contract — reversing it changes
//! the trajectory.

use vstd::prelude::*;

verus! {

use crate::fixed::{fits_i64, mul_scaled, fix_mul};

/// A point: the x, y, z coordinates of a position, as scalars.
#[derive(Clone, Copy, Debug, PartialEq, Eq, Structural)]
pub struct Point {
    pub x: i64,
    pub y: i64,
    pub z: i64,
}

/// A vector: a magnitude and direction represented by its components, as
/// scalars.
#[derive(Clone, Copy, Debug, PartialEq, Eq, Structural)]
pub struct Vector {
    pub x: i64,
    pub y: i64,
    pub z: i64,
}

impl Default for Point {
    /// The origin.
    fn default() -> (p: Point)
        ensures
            p.x == 0 && p.y == 0 && p.z == 0,
    {
        Point { x: 0, y: 0, z: 0 }
    }
}

impl Default for Vector {
    /// The zero vector.
    fn default() -> (v: Vector)
        ensures
            v.x == 0 && v.y == 0 && v.z == 0,
    {
        Vector { x: 0, y: 0, z: 0 }
    }
}

/// Gravity for a coordinate plane whose origin sits at the bottom left:
/// `(0, -9.81, 0)` in scalar units.
pub fn gravity() -> (v: Vector)
    ensures
        v.x == 0,
        v.y == -9_810_000_000_000i64,
        v.z == 0,
{
    Vector { x: 0, y: -9_810_000_000_000i64, z: 0 }
}

/// Gravity for a coordinate plane whose origin sits at the top left:
/// `(0, 9.81, 0)` in scalar units.
pub fn terminal_gravity() -> (v: Vector)
    ensures
        v.x == 0,
        v.y == 9_810_000_000_000i64,
        v.z == 0,
{
    Vector { x: 0, y: 9_810_000_000_000i64, z: 0 }
}

/// A projectile: a position on a plane, a velocity, a constant
/// acceleration, and the fixed time step by which `update` advances
/// them.
#[derive(Clone, Copy, Debug, PartialEq, Eq, Structural)]
pub struct Projectile {
    /// Position on the plane.
    pub pos: Point,
    /// Velocity of the projectile.
    pub vel: Vector,
    /// Acceleration of the projectile.
    pub acc: Vector,
    /// Time step, usually one frame.
    pub delta_time: i64,
}

/// Every intermediate of one projectile step stays in the `i64` range;
/// this is the machine-size bound `update` asks of its caller.
pub open spec fn spec_step_fits(p: Projectile) -> bool {
    &&& fits_i64(mul_scaled(p.vel.x as int, p.delta_time as int))
    &&& fits_i64(mul_scaled(p.vel.y as int, p.delta_time as int))
    &&& fits_i64(mul_scaled(p.vel.z as int, p.delta_time as int))
    &&& fits_i64(p.pos.x + mul_scaled(p.vel.x as int, p.delta_time as int))
    &&& fits_i64(p.pos.y + mul_scaled(p.vel.y as int, p.delta_time as int))
    &&& fits_i64(p.pos.z + mul_scaled(p.vel.z as int, p.delta_time as int))
    &&& fits_i64(mul_scaled(p.acc.x as int, p.delta_time as int))
    &&& fits_i64(mul_scaled(p.acc.y as int, p.delta_time as int))
    &&& fits_i64(mul_scaled(p.acc.z as int, p.delta_time as int))
    &&& fits_i64(p.vel.x + mul_scaled(p.acc.x as int, p.delta_time as int))
    &&& fits_i64(p.vel.y + mul_scaled(p.acc.y as int, p.delta_time as int))
    &&& fits_i64(p.vel.z + mul_scaled(p.acc.z as int, p.delta_time as int))
}

impl Projectile {
    /// Creates a projectile from a time step and initial position,
    /// velocity and acceleration; all four are stored by value,
    /// unvalidated.
    pub fn new(
        delta_time: i64,
        initial_position: Point,
        initial_velocity: Vector,
        initial_acceleration: Vector,
    ) -> (p: Projectile)
        ensures
            p.pos == initial_position,
            p.vel == initial_velocity,
            p.acc == initial_acceleration,
            p.delta_time == delta_time,
    {
        Projectile {
            pos: initial_position,
            vel: initial_velocity,
            acc: initial_acceleration,
            delta_time,
        }
    }

    /// Advances the projectile one time step in place and returns the
    /// new position. Semi-implicit Euler: the position moves by the old
    /// velocity, then the velocity by the acceleration.
    pub fn update(&mut self) -> (p: Point)
        requires
            spec_step_fits(*old(self)),
        ensures
            final(self).pos.x as int == old(self).pos.x + mul_scaled(
                old(self).vel.x as int,
                old(self).delta_time as int,
            ),
            final(self).pos.y as int == old(self).pos.y + mul_scaled(
                old(self).vel.y as int,
                old(self).delta_time as int,
            ),
            final(self).pos.z as int == old(self).pos.z + mul_scaled(
                old(self).vel.z as int,
                old(self).delta_time as int,
            ),
            final(self).vel.x as int == old(self).vel.x + mul_scaled(
                old(self).acc.x as int,
                old(self).delta_time as int,
            ),
            final(self).vel.y as int == old(self).vel.y + mul_scaled(
                old(self).acc.y as int,
                old(self).delta_time as int,
            ),
            final(self).vel.z as int == old(self).vel.z + mul_scaled(
                old(self).acc.z as int,
                old(self).delta_time as int,
            ),
            final(self).acc == old(self).acc,
            final(self).delta_time == old(self).delta_time,
            p == final(self).pos,
    {
        self.pos.x = self.pos.x + fix_mul(self.vel.x, self.delta_time);
        self.pos.y = self.pos.y + fix_mul(self.vel.y, self.delta_time);
        self.pos.z = self.pos.z + fix_mul(self.vel.z, self.delta_time);

        self.vel.x = self.vel.x + fix_mul(self.acc.x, self.delta_time);
        self.vel.y = self.vel.y + fix_mul(self.acc.y, self.delta_time);
        self.vel.z = self.vel.z + fix_mul(self.acc.z, self.delta_time);

        self.pos
    }

    /// The current position, unchanged.
    pub fn position(&self) -> (p: Point)
        ensures
            p == self.pos,
    {
        self.pos
    }
}

} // verus!
