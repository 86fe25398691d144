//! Damped harmonic oscillator ("spring") solver.
//!
//! `Spring::new` derives, once per configuration, the four coefficients of
//! the closed-form solution of the damped spring equation for one fixed
//! time step, branching on the damping regime; `Spring::update` applies
//! them as a 2x2 linear map to a caller-owned `(position, velocity)` pair
//! relative to a (possibly moving) equilibrium.
//!
//! The derivation is specified exactly by `spec_derive`, an integer model
//! of the same formulas in fixed point. Where the true coefficients would
//! not be representable — an intermediate falls outside the `i64` range,
//! or a divisor underflows to zero — the derivation returns the identity
//! coefficients instead of producing nonsense, and the model says so.

use vstd::prelude::*;

verus! {

use vstd::arithmetic::div_mod::lemma_div_is_ordered;
use crate::fixed::{
    SCALE,
    fits_i64,
    mul_scaled,
    div_scaled,
    clamp_i64,
    mag,
    fix_mul,
    fix_mul_checked,
    fix_mul_sat,
    fix_div_checked,
    add_checked,
    sub_checked,
    lemma_mul_scaled_decompose,
    lemma_div_scaled_decompose,
    lemma_mul_scaled_contracts,
    lemma_mul_scaled_one,
};
use crate::series::{
    spec_exp_neg,
    spec_sin,
    spec_cos,
    spec_sqrt_scaled,
    exp_neg,
    sin_fix,
    cos_fix,
    sqrt_fix,
};

/// Threshold below which an angular frequency cannot move the spring,
/// and half-width of the critically-damped band around a damping ratio
/// of one: `1e-8` in fixed-point units.
pub const EPSILON: i64 = 10_000;

/// Cached coefficients of the closed-form damped-spring step: a 2x2
/// linear map from equilibrium-relative `(position, velocity)` at one
/// frame to the next.
#[derive(Clone, Copy, Debug, PartialEq, Eq, Structural)]
pub struct Spring {
    /// Contribution of the relative position to the next position.
    pub pos_pos_coef: i64,
    /// Contribution of the velocity to the next position.
    pub pos_vel_coef: i64,
    /// Contribution of the relative position to the next velocity.
    pub vel_pos_coef: i64,
    /// Contribution of the velocity to the next velocity.
    pub vel_vel_coef: i64,
}

/// Named wrapper for a time step handed to `Spring::new`.
pub struct DeltaTime(pub i64);

/// Named wrapper for an angular frequency handed to `Spring::new`.
pub struct AngularFrequency(pub i64);

/// Named wrapper for a damping ratio handed to `Spring::new`.
pub struct DampingRatio(pub i64);

/// The identity map: the spring holds position and velocity unchanged.
pub open spec fn identity_coeffs() -> Spring {
    Spring { pos_pos_coef: SCALE, pos_vel_coef: 0, vel_pos_coef: 0, vel_vel_coef: SCALE }
}

/// Coefficients of the critically-damped regime: with `e = exp(-w*dt)`,
/// the map is `[[w*dt*e + e, dt*e], [-w*w*dt*e, -w*dt*e + e]]`, each
/// product rounded as the fixed-point arithmetic rounds it; an
/// unrepresentable intermediate yields the identity.
pub open spec fn spec_critically_damped(w: int, dt: int) -> Spring
    recommends
        w >= EPSILON,
        dt > 0,
{
    let e: int = spec_exp_neg(clamp_i64(mul_scaled(w, dt)));
    let te: int = mul_scaled(dt, e);
    let tef: int = mul_scaled(te, w);
    if !fits_i64(tef) {
        identity_coeffs()
    } else if !fits_i64(tef + e) {
        identity_coeffs()
    } else {
        let vp: int = mul_scaled(w, tef);
        if !fits_i64(vp) {
            identity_coeffs()
        } else {
            Spring {
                pos_pos_coef: (tef + e) as i64,
                pos_vel_coef: te as i64,
                vel_pos_coef: (-vp) as i64,
                vel_vel_coef: (e - tef) as i64,
            }
        }
    }
}

/// The critically-damped branch of the derivation.
fn calculate_critically_damped(delta_time: i64, angular_frequency: i64) -> (s: Spring)
    requires
        delta_time > 0,
        angular_frequency >= EPSILON,
    ensures
        s == spec_critically_damped(angular_frequency as int, delta_time as int),
{
    let w: i64 = angular_frequency;
    proof {
        lemma_mul_scaled_decompose(w as int, delta_time as int);
    }
    let arg: i64 = fix_mul_sat(w, delta_time);
    assert(arg >= 0);
    let exp_term: i64 = exp_neg(arg);
    proof {
        lemma_mul_scaled_contracts(delta_time as int, exp_term as int);
    }
    let time_exp: i64 = fix_mul(delta_time, exp_term);
    let time_exp_freq_o: Option<i64> = fix_mul_checked(time_exp, w);
    match time_exp_freq_o {
        None => identity(),
        Some(time_exp_freq) => {
            let pos_pos_o: Option<i64> = add_checked(time_exp_freq, exp_term);
            match pos_pos_o {
                None => identity(),
                Some(pos_pos) => {
                    let vp_o: Option<i64> = fix_mul_checked(w, time_exp_freq);
                    match vp_o {
                        None => identity(),
                        Some(vp) => {
                            proof {
                                lemma_mul_scaled_decompose(delta_time as int, exp_term as int);
                                lemma_mul_scaled_decompose(w as int, time_exp_freq as int);
                            }
                            assert(time_exp >= 0);
                            assert(vp >= 0);
                            Spring {
                                pos_pos_coef: pos_pos,
                                pos_vel_coef: time_exp,
                                vel_pos_coef: -vp,
                                vel_vel_coef: exp_term - time_exp_freq,
                            }
                        },
                    }
                },
            }
        },
    }
}

/// Coefficients of the under-damped regime: with `wz = w*z`,
/// `alpha = w*sqrt(1 - z*z)`, `e = exp(-wz*dt)`, `c = cos(alpha*dt)` and
/// `s = sin(alpha*dt)`, the map is
/// `[[e*c + e*wz*s/alpha, e*s/alpha],
///   [-e*s*alpha - wz*e*wz*s/alpha, e*c - e*wz*s/alpha]]`,
/// each step rounded as the fixed-point arithmetic rounds it. A damped
/// frequency that underflows to zero, or an unrepresentable
/// intermediate, yields the identity.
pub open spec fn spec_under_damped(w: int, z: int, dt: int) -> Spring
    recommends
        w >= EPSILON,
        0 <= z < SCALE - EPSILON,
        dt > 0,
{
    let wz: int = mul_scaled(w, z);
    let zz: int = mul_scaled(z, z);
    let omz: int = SCALE - zz;
    let alpha: int = mul_scaled(w, spec_sqrt_scaled(omz));
    if alpha <= 0 {
        identity_coeffs()
    } else {
        let e: int = spec_exp_neg(clamp_i64(mul_scaled(wz, dt)));
        let arg_t: int = mul_scaled(alpha, dt);
        if !fits_i64(arg_t) {
            identity_coeffs()
        } else {
            let c: int = spec_cos(arg_t);
            let s: int = spec_sin(arg_t);
            let exp_sin: int = mul_scaled(e, s);
            let exp_cos: int = mul_scaled(e, c);
            let ewzs: int = mul_scaled(mul_scaled(e, wz), s);
            let eozso: int = div_scaled(ewzs, alpha);
            if !fits_i64(eozso) {
                identity_coeffs()
            } else {
                let pv: int = div_scaled(exp_sin, alpha);
                if !fits_i64(pv) {
                    identity_coeffs()
                } else {
                    let wzeo: int = mul_scaled(wz, eozso);
                    if !fits_i64(wzeo) {
                        identity_coeffs()
                    } else if !fits_i64(exp_cos + eozso) {
                        identity_coeffs()
                    } else {
                        let esa: int = mul_scaled(exp_sin, alpha);
                        if !fits_i64(-esa - wzeo) {
                            identity_coeffs()
                        } else if !fits_i64(exp_cos - eozso) {
                            identity_coeffs()
                        } else {
                            Spring {
                                pos_pos_coef: (exp_cos + eozso) as i64,
                                pos_vel_coef: pv as i64,
                                vel_pos_coef: (-esa - wzeo) as i64,
                                vel_vel_coef: (exp_cos - eozso) as i64,
                            }
                        }
                    }
                }
            }
        }
    }
}

/// The under-damped branch of the derivation.
fn calculate_under_damped(delta_time: i64, angular_frequency: i64, damping_ratio: i64) -> (s:
    Spring)
    requires
        delta_time > 0,
        angular_frequency >= EPSILON,
        0 <= damping_ratio < SCALE - EPSILON,
    ensures
        s == spec_under_damped(angular_frequency as int, damping_ratio as int, delta_time as int),
{
    let w: i64 = angular_frequency;
    let z: i64 = damping_ratio;
    proof {
        lemma_mul_scaled_contracts(w as int, z as int);
        lemma_mul_scaled_decompose(w as int, z as int);
        lemma_mul_scaled_contracts(z as int, z as int);
        lemma_mul_scaled_decompose(z as int, z as int);
    }
    let omega_zeta: i64 = fix_mul(w, z);
    let zz: i64 = fix_mul(z, z);
    let omz: i64 = SCALE - zz;
    let root: i64 = sqrt_fix(omz);
    proof {
        assert(root * root <= omz * (SCALE as int));
        assert(omz <= SCALE);
        assert(root <= SCALE) by (nonlinear_arith)
            requires
                root >= 0,
                (root as int) * (root as int) <= (omz as int) * (SCALE as int),
                omz <= SCALE,
                SCALE == 1_000_000_000_000i64,
        ;
        lemma_mul_scaled_contracts(w as int, root as int);
    }
    let alpha: i64 = fix_mul(w, root);
    if alpha <= 0 {
        return identity();
    }
    proof {
        lemma_mul_scaled_decompose(omega_zeta as int, delta_time as int);
    }
    let arg_e: i64 = fix_mul_sat(omega_zeta, delta_time);
    assert(arg_e >= 0);
    let exp_term: i64 = exp_neg(arg_e);
    let arg_t_o: Option<i64> = fix_mul_checked(alpha, delta_time);
    match arg_t_o {
        None => identity(),
        Some(arg_t) => {
            proof {
                lemma_mul_scaled_decompose(alpha as int, delta_time as int);
            }
            assert(arg_t >= 0);
            let cos_term: i64 = cos_fix(arg_t);
            let sin_term: i64 = sin_fix(arg_t);
            proof {
                lemma_mul_scaled_contracts(exp_term as int, sin_term as int);
                lemma_mul_scaled_contracts(exp_term as int, cos_term as int);
                lemma_mul_scaled_contracts(omega_zeta as int, exp_term as int);
                assert(mul_scaled(exp_term as int, omega_zeta as int) == mul_scaled(
                    omega_zeta as int,
                    exp_term as int,
                )) by {
                    assert((exp_term as int) * (omega_zeta as int) == (omega_zeta as int) * (
                    exp_term as int)) by (nonlinear_arith);
                }
            }
            let exp_sin: i64 = fix_mul(exp_term, sin_term);
            let exp_cos: i64 = fix_mul(exp_term, cos_term);
            let ewz: i64 = fix_mul(exp_term, omega_zeta);
            proof {
                lemma_mul_scaled_contracts(ewz as int, sin_term as int);
            }
            let ewzs: i64 = fix_mul(ewz, sin_term);
            let eozso_o: Option<i64> = fix_div_checked(ewzs, alpha);
            match eozso_o {
                None => identity(),
                Some(eozso) => {
                    let pv_o: Option<i64> = fix_div_checked(exp_sin, alpha);
                    match pv_o {
                        None => identity(),
                        Some(pv) => {
                            let wzeo_o: Option<i64> = fix_mul_checked(omega_zeta, eozso);
                            match wzeo_o {
                                None => identity(),
                                Some(wzeo) => {
                                    let pp_o: Option<i64> = add_checked(exp_cos, eozso);
                                    match pp_o {
                                        None => identity(),
                                        Some(pp) => {
                                            proof {
                                                lemma_mul_scaled_contracts(
                                                    alpha as int,
                                                    exp_sin as int,
                                                );
                                                assert(mul_scaled(exp_sin as int, alpha as int)
                                                    == mul_scaled(alpha as int, exp_sin as int))
                                                    by {
                                                    assert((exp_sin as int) * (alpha as int) == (
                                                    alpha as int) * (exp_sin as int))
                                                        by (nonlinear_arith);
                                                }
                                            }
                                            let esa: i64 = fix_mul(exp_sin, alpha);
                                            assert(mag(esa as int) <= mag(alpha as int));
                                            let vp_o: Option<i64> = sub_checked(-esa, wzeo);
                                            match vp_o {
                                                None => identity(),
                                                Some(vp) => {
                                                    let vv_o: Option<i64> = sub_checked(
                                                        exp_cos,
                                                        eozso,
                                                    );
                                                    match vv_o {
                                                        None => identity(),
                                                        Some(vv) => Spring {
                                                            pos_pos_coef: pp,
                                                            pos_vel_coef: pv,
                                                            vel_pos_coef: vp,
                                                            vel_vel_coef: vv,
                                                        },
                                                    }
                                                },
                                            }
                                        },
                                    }
                                },
                            }
                        },
                    }
                },
            }
        },
    }
}

/// Coefficients of the over-damped regime: with `wz = w*z`,
/// `zb = w*sqrt(z*z - 1)`, the two real decay rates are `z1 = -wz - zb`
/// and `z2 = -wz + zb`; with `e1 = exp(z1*dt)`, `e2 = exp(z2*dt)` and
/// `k = 1/(z2 - z1)` the map is
/// `[[(z2*e1 - z1*e2)*k, (e2 - e1)*k],
///   [(z1*e1 - z1*e2)*z2*k, (z2*e2 - z1*e1)*k]]`,
/// each step rounded as the fixed-point arithmetic rounds it. A rate
/// difference that underflows to zero, or an unrepresentable
/// intermediate, yields the identity.
pub open spec fn spec_over_damped(w: int, z: int, dt: int) -> Spring
    recommends
        w >= EPSILON,
        z > SCALE + EPSILON,
        dt > 0,
{
    let wz: int = mul_scaled(w, z);
    if !fits_i64(wz) {
        identity_coeffs()
    } else {
        let zz: int = mul_scaled(z, z);
        if !fits_i64(zz) {
            identity_coeffs()
        } else {
            let zzm: int = zz - SCALE;
            let zb: int = mul_scaled(w, spec_sqrt_scaled(zzm));
            if !fits_i64(zb) {
                identity_coeffs()
            } else if zb == 0 {
                identity_coeffs()
            } else if !fits_i64(zb + zb) {
                identity_coeffs()
            } else {
                let two_zb: int = zb + zb;
                if !fits_i64(wz + zb) {
                    identity_coeffs()
                } else {
                    let s1: int = wz + zb;
                    let d2: int = if wz - zb < 0 {
                        0
                    } else {
                        wz - zb
                    };
                    let e1: int = spec_exp_neg(clamp_i64(mul_scaled(s1, dt)));
                    let e2: int = spec_exp_neg(clamp_i64(mul_scaled(d2, dt)));
                    let e1o: int = div_scaled(e1, two_zb);
                    if !fits_i64(e1o) {
                        identity_coeffs()
                    } else {
                        let e2o: int = div_scaled(e2, two_zb);
                        if !fits_i64(e2o) {
                            identity_coeffs()
                        } else {
                            let z1e1o: int = mul_scaled(-s1, e1o);
                            if !fits_i64(z1e1o) {
                                identity_coeffs()
                            } else {
                                let z2: int = zb - wz;
                                let z2e2o: int = mul_scaled(z2, e2o);
                                if !fits_i64(z2e2o) {
                                    identity_coeffs()
                                } else {
                                    let e1oz2: int = mul_scaled(e1o, z2);
                                    if !fits_i64(e1oz2) {
                                        identity_coeffs()
                                    } else if !fits_i64(e1oz2 - z2e2o) {
                                        identity_coeffs()
                                    } else if !fits_i64(e1oz2 - z2e2o + e2) {
                                        identity_coeffs()
                                    } else if !fits_i64(z1e1o - z2e2o) {
                                        identity_coeffs()
                                    } else if !fits_i64(z1e1o - z2e2o + e2) {
                                        identity_coeffs()
                                    } else {
                                        let vp: int = mul_scaled(z1e1o - z2e2o + e2, z2);
                                        if !fits_i64(vp) {
                                            identity_coeffs()
                                        } else if !fits_i64(z2e2o - z1e1o) {
                                            identity_coeffs()
                                        } else {
                                            Spring {
                                                pos_pos_coef: (e1oz2 - z2e2o + e2) as i64,
                                                pos_vel_coef: (e2o - e1o) as i64,
                                                vel_pos_coef: vp as i64,
                                                vel_vel_coef: (z2e2o - z1e1o) as i64,
                                            }
                                        }
                                    }
                                }
                            }
                        }
                    }
                }
            }
        }
    }
}

/// The over-damped branch of the derivation.
fn calculate_over_damped(delta_time: i64, angular_frequency: i64, damping_ratio: i64) -> (s:
    Spring)
    requires
        delta_time > 0,
        angular_frequency >= EPSILON,
        damping_ratio > SCALE + EPSILON,
    ensures
        s == spec_over_damped(angular_frequency as int, damping_ratio as int, delta_time as int),
{
    let w: i64 = angular_frequency;
    let z: i64 = damping_ratio;
    let wz_o: Option<i64> = fix_mul_checked(w, z);
    let wz: i64 = match wz_o {
        None => {
            return identity();
        },
        Some(v) => v,
    };
    proof {
        lemma_mul_scaled_decompose(w as int, z as int);
    }
    assert(wz >= 0);
    let zz_o: Option<i64> = fix_mul_checked(z, z);
    let zz: i64 = match zz_o {
        None => {
            return identity();
        },
        Some(v) => v,
    };
    proof {
        lemma_mul_scaled_decompose(z as int, z as int);
        assert((z as int) * (z as int) >= (SCALE as int) * (SCALE as int)) by (nonlinear_arith)
            requires
                (z as int) >= SCALE as int,
        ;
        lemma_div_is_ordered((SCALE as int) * (SCALE as int), (z as int) * (z as int), SCALE as int);
        assert(zz >= SCALE);
    }
    let zzm: i64 = zz - SCALE;
    let root: i64 = sqrt_fix(zzm);
    let zb_o: Option<i64> = fix_mul_checked(w, root);
    let zb: i64 = match zb_o {
        None => {
            return identity();
        },
        Some(v) => v,
    };
    proof {
        lemma_mul_scaled_decompose(w as int, root as int);
    }
    assert(zb >= 0);
    if zb == 0 {
        return identity();
    }
    let two_zb_o: Option<i64> = add_checked(zb, zb);
    let two_zb: i64 = match two_zb_o {
        None => {
            return identity();
        },
        Some(v) => v,
    };
    let s1_o: Option<i64> = add_checked(wz, zb);
    let s1: i64 = match s1_o {
        None => {
            return identity();
        },
        Some(v) => v,
    };
    let d2: i64 = if wz >= zb {
        wz - zb
    } else {
        0
    };
    proof {
        lemma_mul_scaled_decompose(s1 as int, delta_time as int);
        lemma_mul_scaled_decompose(d2 as int, delta_time as int);
    }
    let arg1: i64 = fix_mul_sat(s1, delta_time);
    assert(arg1 >= 0);
    let e1: i64 = exp_neg(arg1);
    let arg2: i64 = fix_mul_sat(d2, delta_time);
    assert(arg2 >= 0);
    let e2: i64 = exp_neg(arg2);
    let e1o_o: Option<i64> = fix_div_checked(e1, two_zb);
    let e1o: i64 = match e1o_o {
        None => {
            return identity();
        },
        Some(v) => v,
    };
    let e2o_o: Option<i64> = fix_div_checked(e2, two_zb);
    let e2o: i64 = match e2o_o {
        None => {
            return identity();
        },
        Some(v) => v,
    };
    proof {
        lemma_div_scaled_decompose(e1 as int, two_zb as int);
        lemma_div_scaled_decompose(e2 as int, two_zb as int);
    }
    assert(e1o >= 0);
    assert(e2o >= 0);
    let z1e1o_o: Option<i64> = fix_mul_checked(-s1, e1o);
    let z1e1o: i64 = match z1e1o_o {
        None => {
            return identity();
        },
        Some(v) => v,
    };
    let z2: i64 = zb - wz;
    let z2e2o_o: Option<i64> = fix_mul_checked(z2, e2o);
    let z2e2o: i64 = match z2e2o_o {
        None => {
            return identity();
        },
        Some(v) => v,
    };
    let e1oz2_o: Option<i64> = fix_mul_checked(e1o, z2);
    let e1oz2: i64 = match e1oz2_o {
        None => {
            return identity();
        },
        Some(v) => v,
    };
    let ppt_o: Option<i64> = sub_checked(e1oz2, z2e2o);
    let ppt: i64 = match ppt_o {
        None => {
            return identity();
        },
        Some(v) => v,
    };
    let pp_o: Option<i64> = add_checked(ppt, e2);
    let pp: i64 = match pp_o {
        None => {
            return identity();
        },
        Some(v) => v,
    };
    let pv: i64 = e2o - e1o;
    let vt_o: Option<i64> = sub_checked(z1e1o, z2e2o);
    let vt: i64 = match vt_o {
        None => {
            return identity();
        },
        Some(v) => v,
    };
    let vt2_o: Option<i64> = add_checked(vt, e2);
    let vt2: i64 = match vt2_o {
        None => {
            return identity();
        },
        Some(v) => v,
    };
    let vp_o: Option<i64> = fix_mul_checked(vt2, z2);
    let vp: i64 = match vp_o {
        None => {
            return identity();
        },
        Some(v) => v,
    };
    let vv_o: Option<i64> = sub_checked(z2e2o, z1e1o);
    let vv: i64 = match vv_o {
        None => {
            return identity();
        },
        Some(v) => v,
    };
    Spring { pos_pos_coef: pp, pos_vel_coef: pv, vel_pos_coef: vp, vel_vel_coef: vv }
}

/// The identity coefficients, as a value.
fn identity() -> (s: Spring)
    ensures
        s == identity_coeffs(),
{
    Spring { pos_pos_coef: SCALE, pos_vel_coef: 0, vel_pos_coef: 0, vel_vel_coef: SCALE }
}

/// The whole derivation: negative frequency and damping are floored to
/// zero; a non-positive time step or a frequency below `EPSILON` cannot
/// move the spring and yields the identity; otherwise the damping ratio
/// selects the over-damped, under-damped or critically-damped formulas.
pub open spec fn spec_derive(dt: int, w0: int, z0: int) -> Spring {
    let w: int = if w0 < 0 {
        0
    } else {
        w0
    };
    let z: int = if z0 < 0 {
        0
    } else {
        z0
    };
    if dt <= 0 {
        identity_coeffs()
    } else if w < EPSILON {
        identity_coeffs()
    } else if z > SCALE + EPSILON {
        spec_over_damped(w, z, dt)
    } else if z < SCALE - EPSILON {
        spec_under_damped(w, z, dt)
    } else {
        spec_critically_damped(w, dt)
    }
}

/// What one `update` call returns as the new position.
pub open spec fn spec_update_pos(s: Spring, pos: int, vel: int, eq: int) -> int {
    mul_scaled(s.pos_pos_coef as int, pos - eq) + mul_scaled(s.pos_vel_coef as int, vel) + eq
}

/// What one `update` call returns as the new velocity.
pub open spec fn spec_update_vel(s: Spring, pos: int, vel: int, eq: int) -> int {
    mul_scaled(s.vel_pos_coef as int, pos - eq) + mul_scaled(s.vel_vel_coef as int, vel)
}

/// Every intermediate of one `update` call stays in the `i64` range;
/// this is the machine-size bound `update` asks of its caller.
pub open spec fn spec_update_fits(s: Spring, pos: int, vel: int, eq: int) -> bool {
    let rel: int = pos - eq;
    &&& fits_i64(rel)
    &&& fits_i64(mul_scaled(s.pos_pos_coef as int, rel))
    &&& fits_i64(mul_scaled(s.pos_vel_coef as int, vel))
    &&& fits_i64(mul_scaled(s.pos_pos_coef as int, rel) + mul_scaled(s.pos_vel_coef as int, vel))
    &&& fits_i64(spec_update_pos(s, pos, vel, eq))
    &&& fits_i64(mul_scaled(s.vel_pos_coef as int, rel))
    &&& fits_i64(mul_scaled(s.vel_vel_coef as int, vel))
    &&& fits_i64(spec_update_vel(s, pos, vel, eq))
}

impl Spring {
    /// Derives the coefficients for one `(time step, angular frequency,
    /// damping ratio)` configuration, exactly as `spec_derive` states:
    /// negative frequency and damping are floored to zero, a frequency
    /// below `EPSILON` or a non-positive time step yields the identity,
    /// and otherwise the damping regime selects the closed form.
    pub fn new(delta_time: i64, angular_frequency: i64, damping_ratio: i64) -> (s: Spring)
        ensures
            s == spec_derive(delta_time as int, angular_frequency as int, damping_ratio as int),
    {
        let w: i64 = if angular_frequency < 0 {
            0
        } else {
            angular_frequency
        };
        let z: i64 = if damping_ratio < 0 {
            0
        } else {
            damping_ratio
        };
        if delta_time <= 0 {
            identity()
        } else if w < EPSILON {
            identity()
        } else if z > SCALE + EPSILON {
            calculate_over_damped(delta_time, w, z)
        } else if z < SCALE - EPSILON {
            calculate_under_damped(delta_time, w, z)
        } else {
            calculate_critically_damped(delta_time, w)
        }
    }

    /// Applies the cached map to one `(position, velocity)` pair pulled
    /// toward `equilibrium_pos`: the position is taken relative to the
    /// equilibrium, mapped, and translated back; the velocity carries no
    /// offset. The spring itself never changes, so equal inputs always
    /// give equal outputs.
    pub fn update(&mut self, pos: i64, vel: i64, equilibrium_pos: i64) -> (r: (i64, i64))
        requires
            spec_update_fits(*old(self), pos as int, vel as int, equilibrium_pos as int),
        ensures
            *final(self) == *old(self),
            r.0 as int == spec_update_pos(*old(self), pos as int, vel as int, equilibrium_pos as int),
            r.1 as int == spec_update_vel(*old(self), pos as int, vel as int, equilibrium_pos as int),
    {
        let old_pos: i64 = pos - equilibrium_pos;
        let old_vel: i64 = vel;
        let a: i64 = fix_mul(self.pos_pos_coef, old_pos);
        let b: i64 = fix_mul(self.pos_vel_coef, old_vel);
        let new_pos: i64 = a + b + equilibrium_pos;
        let c: i64 = fix_mul(self.vel_pos_coef, old_pos);
        let d: i64 = fix_mul(self.vel_vel_coef, old_vel);
        let new_vel: i64 = c + d;
        (new_pos, new_vel)
    }
}

impl Default for Spring {
    /// The all-zero map, matching a zero-initialized configuration.
    fn default() -> (s: Spring)
        ensures
            s.pos_pos_coef == 0,
            s.pos_vel_coef == 0,
            s.vel_pos_coef == 0,
            s.vel_vel_coef == 0,
    {
        Spring { pos_pos_coef: 0, pos_vel_coef: 0, vel_pos_coef: 0, vel_vel_coef: 0 }
    }
}

/// The per-frame time step for a whole number of frames per second:
/// `1 / n` as a scalar. A zero rate has no time step and is rejected.
pub fn fps(n: u64) -> (r: Option<i64>)
    ensures
        match r {
            Some(v) => n > 0 && v as int == (SCALE as int) / (n as int),
            None => n == 0,
        },
{
    if n == 0 {
        None
    } else {
        Some(((SCALE as u64) / n) as i64)
    }
}

/// A spring with the identity coefficients leaves any state it is given
/// unchanged: the update is exact, with no rounding.
pub proof fn lemma_update_identity(pos: int, vel: int, eq: int)
    requires
        fits_i64(pos),
        fits_i64(vel),
        fits_i64(eq),
        fits_i64(pos - eq),
    ensures
        spec_update_pos(identity_coeffs(), pos, vel, eq) == pos,
        spec_update_vel(identity_coeffs(), pos, vel, eq) == vel,
        spec_update_fits(identity_coeffs(), pos, vel, eq),
{
    lemma_mul_scaled_one(pos - eq);
    lemma_mul_scaled_one(vel);
}

/// An angular frequency below `EPSILON` — zero in particular — derives
/// the identity coefficients, whatever the damping ratio and time step.
pub proof fn lemma_derive_zero_frequency(dt: int, w: int, z: int)
    requires
        w < EPSILON,
    ensures
        spec_derive(dt, w, z) == identity_coeffs(),
{
}

/// Identity at zero frequency, end to end: deriving at a frequency below
/// `EPSILON` and updating any representable state returns that state
/// unchanged, for every damping ratio, time step and equilibrium.
pub proof fn lemma_zero_frequency_update(
    dt: int,
    w: int,
    z: int,
    pos: int,
    vel: int,
    eq: int,
)
    requires
        w < EPSILON,
        fits_i64(pos),
        fits_i64(vel),
        fits_i64(eq),
        fits_i64(pos - eq),
    ensures
        spec_update_fits(spec_derive(dt, w, z), pos, vel, eq),
        spec_update_pos(spec_derive(dt, w, z), pos, vel, eq) == pos,
        spec_update_vel(spec_derive(dt, w, z), pos, vel, eq) == vel,
{
    lemma_derive_zero_frequency(dt, w, z);
    lemma_update_identity(pos, vel, eq);
}

/// A state resting at the equilibrium is a fixed point of every
/// spring's update, exactly: the position and the zero velocity come
/// back unchanged, whatever the coefficients.
pub proof fn lemma_rest_at_equilibrium_is_fixed(s: Spring, eq: int)
    requires
        fits_i64(eq),
    ensures
        spec_update_pos(s, eq, 0, eq) == eq,
        spec_update_vel(s, eq, 0, eq) == 0,
        spec_update_fits(s, eq, 0, eq),
{
    assert(mul_scaled(s.pos_pos_coef as int, 0) == 0) by {
        assert((s.pos_pos_coef as int) * 0 == 0);
    }
    assert(mul_scaled(s.pos_vel_coef as int, 0) == 0) by {
        assert((s.pos_vel_coef as int) * 0 == 0);
    }
    assert(mul_scaled(s.vel_pos_coef as int, 0) == 0) by {
        assert((s.vel_pos_coef as int) * 0 == 0);
    }
    assert(mul_scaled(s.vel_vel_coef as int, 0) == 0) by {
        assert((s.vel_vel_coef as int) * 0 == 0);
    }
}

/// A moving target re-centers the motion with no jump: shifting the
/// position and the equilibrium together shifts the new position by the
/// same amount and leaves the new velocity unchanged, because the
/// coefficients depend only on the dynamics, not on the current offset.
pub proof fn lemma_update_translation(s: Spring, pos: int, vel: int, eq: int, shift: int)
    ensures
        spec_update_pos(s, pos + shift, vel, eq + shift) == spec_update_pos(s, pos, vel, eq)
            + shift,
        spec_update_vel(s, pos + shift, vel, eq + shift) == spec_update_vel(s, pos, vel, eq),
{
    assert(pos + shift - (eq + shift) == pos - eq);
}

/// The derivation is a pure function of its three inputs: any two
/// coefficient sets obtained from equal inputs are bit-identical.
/// Together with `update` leaving the spring unchanged, repeated calls
/// can never drift.
pub proof fn lemma_derive_deterministic(dt: int, w: int, z: int, s1: Spring, s2: Spring)
    requires
        s1 == spec_derive(dt, w, z),
        s2 == spec_derive(dt, w, z),
    ensures
        s1 == s2,
{
}

/// Negative configuration inputs are floored to zero, not rejected: the
/// derivation cannot tell a negative frequency or damping ratio from
/// zero.
pub proof fn lemma_derive_clamps_negative(dt: int, w: int, z: int)
    ensures
        spec_derive(dt, w, z) == spec_derive(
            dt,
            if w < 0 {
                0
            } else {
                w
            },
            if z < 0 {
                0
            } else {
                z
            },
        ),
{
}

} // verus!
