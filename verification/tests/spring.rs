//! Behavior of the spring solver: regime selection, convergence,
//! overshoot, boundary continuity, determinism, and input clamping.

use natura::{fps, AngularFrequency, DampingRatio, DeltaTime, Spring, EPSILON, SCALE};

/// One second at sixty frames per second, in scalar units.
const DT_60: i64 = 16_666_666_666;

fn coeffs(s: &Spring) -> [i64; 4] {
    [s.pos_pos_coef, s.pos_vel_coef, s.vel_pos_coef, s.vel_vel_coef]
}

#[test]
fn test_fps_sixty() {
    assert_eq!(fps(60), Some(DT_60));
    assert_eq!(fps(1), Some(SCALE));
    assert_eq!(fps(0), None);
}

#[test]
fn test_zero_frequency_identity_coeffs() {
    // Whatever the damping ratio, a zero angular frequency cannot move
    // the spring: the derivation is the identity map.
    for z in [0i64, 3 * SCALE / 10, SCALE, 2 * SCALE] {
        let s = Spring::new(DT_60, 0, z);
        assert_eq!(coeffs(&s), [SCALE, 0, 0, SCALE]);
    }
    // A frequency below the threshold is treated the same way.
    let s = Spring::new(DT_60, EPSILON - 1, SCALE);
    assert_eq!(coeffs(&s), [SCALE, 0, 0, SCALE]);
}

#[test]
fn test_zero_frequency_update_unchanged() {
    let mut s = Spring::new(DT_60, 0, 7 * SCALE / 10);
    let (pos, vel) = s.update(42 * SCALE, -3 * SCALE, 100 * SCALE);
    assert_eq!(pos, 42 * SCALE);
    assert_eq!(vel, -3 * SCALE);
}

#[test]
fn test_update_moves_toward_target() {
    // Starting at rest below the target, one step moves the position up
    // and gives the velocity a push toward the target.
    let mut s = Spring::new(DT_60, 6 * SCALE, 7 * SCALE / 10);
    let (pos, vel) = s.update(0, 0, 100 * SCALE);
    assert!(pos > 0);
    assert!(vel > 0);
}

#[test]
fn test_update_at_target_stays() {
    // At the equilibrium with no velocity the state is a fixed point of
    // the update, exactly.
    let mut s = Spring::new(DT_60, 6 * SCALE, SCALE);
    let (pos, vel) = s.update(100 * SCALE, 0, 100 * SCALE);
    assert_eq!(pos, 100 * SCALE);
    assert_eq!(vel, 0);
}

#[test]
fn test_spring_converges_to_target() {
    // Five simulated seconds at sixty frames per second pull the state
    // to within one unit of the target.
    let mut spring = Spring::new(DT_60, 6 * SCALE, 7 * SCALE / 10);
    let target: i64 = 100 * SCALE;
    let mut pos: i64 = 0;
    let mut vel: i64 = 0;
    for _ in 0..300 {
        let (new_pos, new_vel) = spring.update(pos, vel, target);
        pos = new_pos;
        vel = new_vel;
    }
    assert!((pos - target).abs() < SCALE);
}

#[test]
fn test_under_damped_spring_oscillates() {
    // A damping ratio well below one overshoots the target.
    let mut spring = Spring::new(DT_60, 6 * SCALE, 3 * SCALE / 10);
    let target: i64 = 100 * SCALE;
    let mut pos: i64 = 0;
    let mut vel: i64 = 0;
    let mut max_pos: i64 = 0;
    for _ in 0..120 {
        let (new_pos, new_vel) = spring.update(pos, vel, target);
        pos = new_pos;
        vel = new_vel;
        if pos > max_pos {
            max_pos = pos;
        }
    }
    assert!(max_pos > target);
}

#[test]
fn test_critically_damped_no_overshoot() {
    // A damping ratio of one never exceeds the target by more than half
    // a unit.
    let mut spring = Spring::new(DT_60, 6 * SCALE, SCALE);
    let target: i64 = 100 * SCALE;
    let mut pos: i64 = 0;
    let mut vel: i64 = 0;
    let mut max_pos: i64 = 0;
    for _ in 0..300 {
        let (new_pos, new_vel) = spring.update(pos, vel, target);
        pos = new_pos;
        vel = new_vel;
        if pos > max_pos {
            max_pos = pos;
        }
    }
    assert!(max_pos <= target + SCALE / 2);
}

#[test]
fn test_over_damped_no_overshoot() {
    // A damping ratio above one converges more slowly and never
    // overshoots either.
    let mut spring = Spring::new(DT_60, 6 * SCALE, 3 * SCALE / 2);
    let target: i64 = 100 * SCALE;
    let mut pos: i64 = 0;
    let mut vel: i64 = 0;
    let mut max_pos: i64 = 0;
    for _ in 0..300 {
        let (new_pos, new_vel) = spring.update(pos, vel, target);
        pos = new_pos;
        vel = new_vel;
        if pos > max_pos {
            max_pos = pos;
        }
    }
    assert!(max_pos <= target + SCALE / 2);
    // It still makes real progress toward the target.
    assert!((pos - target).abs() < SCALE);
}

#[test]
fn test_regime_boundary_continuity() {
    // Sweeping the damping ratio through one, the three closed forms
    // agree: at one part in a million on either side of the boundary
    // every coefficient matches the critically-damped value within
    // one part in a million.
    let w: i64 = 6 * SCALE;
    let tolerance: i64 = 1_000_000; // 1e-6 in scalar units
    let critical = Spring::new(DT_60, w, SCALE);
    let just_under = Spring::new(DT_60, w, SCALE - 1_000_000);
    let just_over = Spring::new(DT_60, w, SCALE + 1_000_000);
    let c = coeffs(&critical);
    let u = coeffs(&just_under);
    let o = coeffs(&just_over);
    for i in 0..4 {
        assert!((c[i] - u[i]).abs() <= tolerance);
        assert!((c[i] - o[i]).abs() <= tolerance);
    }
}

#[test]
fn test_epsilon_band_is_critical() {
    // Damping ratios within the epsilon band around one all take the
    // critically-damped branch, which depends only on the frequency.
    let w: i64 = 6 * SCALE;
    let a = Spring::new(DT_60, w, SCALE);
    let b = Spring::new(DT_60, w, SCALE - EPSILON);
    let c = Spring::new(DT_60, w, SCALE + EPSILON);
    assert_eq!(coeffs(&a), coeffs(&b));
    assert_eq!(coeffs(&a), coeffs(&c));
}

#[test]
fn test_derive_deterministic() {
    // Equal inputs give bit-identical coefficients, and equal states
    // give bit-identical updates: there is no hidden state.
    let a = Spring::new(DT_60, 6 * SCALE, 7 * SCALE / 10);
    let b = Spring::new(DT_60, 6 * SCALE, 7 * SCALE / 10);
    assert_eq!(coeffs(&a), coeffs(&b));
    let mut a2 = a;
    let mut b2 = b;
    let r1 = a2.update(17 * SCALE, -2 * SCALE, 100 * SCALE);
    let r2 = b2.update(17 * SCALE, -2 * SCALE, 100 * SCALE);
    assert_eq!(r1, r2);
    let r3 = a2.update(17 * SCALE, -2 * SCALE, 100 * SCALE);
    assert_eq!(r1, r3);
    assert_eq!(coeffs(&a2), coeffs(&a));
}

#[test]
fn test_negative_inputs_clamped() {
    // Negative frequency and damping are floored to zero, not rejected.
    let a = Spring::new(DT_60, -6 * SCALE, -3 * SCALE);
    let b = Spring::new(DT_60, 0, 0);
    assert_eq!(coeffs(&a), coeffs(&b));
    let c = Spring::new(DT_60, 6 * SCALE, -3 * SCALE);
    let d = Spring::new(DT_60, 6 * SCALE, 0);
    assert_eq!(coeffs(&c), coeffs(&d));
}

#[test]
fn test_non_positive_time_step_is_identity() {
    // A step that advances no time leaves the spring frozen.
    let a = Spring::new(0, 6 * SCALE, SCALE);
    assert_eq!(coeffs(&a), [SCALE, 0, 0, SCALE]);
    let b = Spring::new(-DT_60, 6 * SCALE, SCALE);
    assert_eq!(coeffs(&b), [SCALE, 0, 0, SCALE]);
}

#[test]
fn test_spring_default_is_zero() {
    let s = Spring::default();
    assert_eq!(coeffs(&s), [0, 0, 0, 0]);
}

#[test]
fn test_moving_target_recenters() {
    // The coefficients depend only on the dynamics: moving the
    // equilibrium between calls re-centers the motion with no jump.
    let mut s = Spring::new(DT_60, 6 * SCALE, 7 * SCALE / 10);
    let (p1, v1) = s.update(0, 0, 100 * SCALE);
    // The same step taken toward a target shifted by 50 from a start
    // shifted by 50 lands 50 higher: the map is translation-covariant.
    let (p2, v2) = s.update(50 * SCALE, 0, 150 * SCALE);
    assert_eq!(p2, p1 + 50 * SCALE);
    assert_eq!(v2, v1);
}

#[test]
fn test_parameter_wrappers_carry_scalars() {
    let DeltaTime(dt) = DeltaTime(DT_60);
    let AngularFrequency(w) = AngularFrequency(6 * SCALE);
    let DampingRatio(z) = DampingRatio(SCALE / 2);
    let s = Spring::new(dt, w, z);
    let t = Spring::new(DT_60, 6 * SCALE, SCALE / 2);
    assert_eq!(coeffs(&s), coeffs(&t));
}

#[test]
fn test_exact_coefficients_per_regime() {
    // One exact value per closed form; any change to the formulas or
    // their rounding shows up here.
    let crit = Spring::new(DT_60, 6 * SCALE, SCALE);
    assert_eq!(
        coeffs(&crit),
        [995_321_159_841, 15_080_623_633, -542_902_450_788, 814_353_676_245],
    );
    let under = Spring::new(DT_60, 6 * SCALE, 7 * SCALE / 10);
    assert_eq!(
        coeffs(&under),
        [995_229_330_085, 15_526_691_453, -558_960_892_320, 864_805_121_877],
    );
    let over = Spring::new(DT_60, 6 * SCALE, 3 * SCALE / 2);
    assert_eq!(
        coeffs(&over),
        [995_468_343_046, 14_375_037_317, -517_501_343_441, 736_717_671_328],
    );
}

#[test]
fn test_extreme_frequency_snaps_to_target() {
    // A frequency so large that the decay term vanishes within one step
    // yields the zero map: the state jumps straight to the equilibrium.
    let s = Spring::new(DT_60, i64::MAX, SCALE / 2);
    assert_eq!(coeffs(&s), [0, 0, 0, 0]);
    let mut s2 = s;
    let (pos, vel) = s2.update(0, 0, 100 * SCALE);
    assert_eq!(pos, 100 * SCALE);
    assert_eq!(vel, 0);
}

#[test]
fn test_unrepresentable_derivation_is_identity() {
    // When an intermediate of the closed form cannot be represented,
    // the derivation hardens to the identity instead of wrapping.
    let s = Spring::new(DT_60, 6 * SCALE, i64::MAX);
    assert_eq!(coeffs(&s), [SCALE, 0, 0, SCALE]);
    let t = Spring::new(DT_60, i64::MAX, 3 * SCALE / 2);
    assert_eq!(coeffs(&t), [SCALE, 0, 0, SCALE]);
}
