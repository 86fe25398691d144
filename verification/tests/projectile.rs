//! Behavior of the projectile simulator: the reference trajectory under
//! gravity, the semi-implicit integration order, and the accessors.

use natura::{fps, gravity, terminal_gravity, Point, Projectile, Vector, SCALE};

/// Absolute tolerance of one hundredth of a unit, in scalar units.
const TOL: i64 = 10_000_000_000;

/// One integration increment: `v * dt` in fixed point.
fn step(v: i64, dt: i64) -> i64 {
    ((v as i128 * dt as i128) / (SCALE as i128)) as i64
}

#[test]
fn test_update_gravity() {
    // Launch at (0, 0) with velocity (5, 5, 0) under downward-screen
    // gravity (0, 9.81, 0) at sixty frames per second; after each
    // simulated second the position matches the closed-form trajectory
    // within a hundredth of a unit.
    let time = fps(60).unwrap();
    let initial_acceleration = Vector { x: 0, y: 9_810_000_000_000, z: 0 };
    let initial_position = Point { x: 0, y: 0, z: 0 };
    let initial_velocity = Vector { x: 5 * SCALE, y: 5 * SCALE, z: 0 };
    let mut projectile = Projectile::new(
        time,
        initial_position,
        initial_velocity,
        initial_acceleration,
    );

    let coordinates = [
        (5_000_000_000_000i64, 9_820_000_000_000i64),
        (10_000_000_000_000, 29_460_000_000_000),
        (15_000_000_000_000, 58_900_000_000_000),
        (20_000_000_000_000, 98_150_000_000_000),
        (25_000_000_000_000, 147_220_000_000_000),
        (30_000_000_000_000, 206_090_000_000_000),
        (35_000_000_000_000, 274_770_000_000_000),
    ];

    for &(cx, cy) in coordinates.iter() {
        let mut pos = Point { x: 0, y: 0, z: 0 };
        for _ in 0..60 {
            pos = projectile.update();
        }
        assert!((pos.x - cx).abs() <= TOL);
        assert!((pos.y - cy).abs() <= TOL);
        assert_eq!(pos.z, 0);
    }
}

#[test]
fn test_projectile_new_stores_values() {
    let p = Projectile::new(
        fps(60).unwrap(),
        Point { x: SCALE, y: 2 * SCALE, z: 3 * SCALE },
        Vector { x: 4 * SCALE, y: 5 * SCALE, z: 6 * SCALE },
        Vector { x: 0, y: -SCALE, z: 0 },
    );
    assert_eq!(p.pos, Point { x: SCALE, y: 2 * SCALE, z: 3 * SCALE });
    assert_eq!(p.vel, Vector { x: 4 * SCALE, y: 5 * SCALE, z: 6 * SCALE });
    assert_eq!(p.acc, Vector { x: 0, y: -SCALE, z: 0 });
    assert_eq!(p.delta_time, 16_666_666_666);
}

#[test]
fn test_position_reads_without_advancing() {
    let mut p = Projectile::new(
        fps(60).unwrap(),
        Point { x: 7 * SCALE, y: 0, z: 0 },
        Vector { x: SCALE, y: 0, z: 0 },
        Vector { x: 0, y: 0, z: 0 },
    );
    assert_eq!(p.position(), Point { x: 7 * SCALE, y: 0, z: 0 });
    assert_eq!(p.position(), Point { x: 7 * SCALE, y: 0, z: 0 });
    let after = p.update();
    assert_eq!(p.position(), after);
}

#[test]
fn test_semi_implicit_euler_order() {
    // The first step moves the position by the launch velocity alone;
    // the acceleration only shows up in the velocity, and so in the
    // position from the second step on.
    let dt = fps(60).unwrap();
    let mut p = Projectile::new(
        dt,
        Point { x: 0, y: 0, z: 0 },
        Vector { x: 0, y: 5 * SCALE, z: 0 },
        Vector { x: 0, y: 9_810_000_000_000, z: 0 },
    );
    let first = p.update();
    assert_eq!(first.y, step(5 * SCALE, dt));
    let vel_after = 5 * SCALE + step(9_810_000_000_000, dt);
    let second = p.update();
    assert_eq!(second.y, first.y + step(vel_after, dt));
}

#[test]
fn test_gravity_constants() {
    let g = gravity();
    assert_eq!((g.x, g.y, g.z), (0, -9_810_000_000_000, 0));
    let t = terminal_gravity();
    assert_eq!((t.x, t.y, t.z), (0, 9_810_000_000_000, 0));
}

#[test]
fn test_point_and_vector_defaults() {
    let p = Point::default();
    assert_eq!((p.x, p.y, p.z), (0, 0, 0));
    let v = Vector::default();
    assert_eq!((v.x, v.y, v.z), (0, 0, 0));
}

#[test]
fn test_zero_time_step_freezes_motion() {
    let mut p = Projectile::new(
        0,
        Point { x: SCALE, y: SCALE, z: SCALE },
        Vector { x: 5 * SCALE, y: 5 * SCALE, z: 5 * SCALE },
        Vector { x: 0, y: 9_810_000_000_000, z: 0 },
    );
    let pos = p.update();
    assert_eq!(pos, Point { x: SCALE, y: SCALE, z: SCALE });
}
