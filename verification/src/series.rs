//! Fixed-point kernels for the decaying exponential, sine, cosine and
//! square root.
//!
//! Each executable kernel is specified exactly: its contract equates the
//! result with a spec-level integer recurrence (a truncated series with
//! the same rounding, or the integer square root), so callers know the
//! result to the unit. The series are evaluated with double-width
//! unsigned arithmetic; terms are capped at `TRIG_TERM_CAP` and results
//! clamped into `[-SCALE, SCALE]`, caps that the series for arguments in
//! the reduced range never reach.

use vstd::prelude::*;

verus! {

use vstd::arithmetic::div_mod::lemma_div_denominator;
use crate::fixed::{SCALE, div_tz, mag};

/// `ln 2`, in fixed-point units.
pub const LN2_FIX: i64 = 693_147_180_560;

/// Arguments at least this large make `exp(-x)` indistinguishable from
/// zero at this scale.
pub const EXP_ARG_CUT: i64 = 28_500_000_000_000;

/// One full turn, `2 * pi`, in fixed-point units.
pub const TWO_PI_FIX: i64 = 6_283_185_307_180;

/// Cap on the magnitude of a series term; the sine and cosine series on
/// a reduced argument stay below it.
pub const TRIG_TERM_CAP: i64 = 100_000_000_000_000;

/// Powers of two.
pub open spec fn pow2_int(n: nat) -> int
    decreases n,
{
    if n == 0 {
        1
    } else {
        2 * pow2_int((n - 1) as nat)
    }
}

pub proof fn lemma_pow2_int_pos(n: nat)
    ensures
        pow2_int(n) >= 1,
    decreases n,
{
    if n > 0 {
        lemma_pow2_int_pos((n - 1) as nat);
    }
}

/// Term `k` of the exponential series `sum r^k / k!`, with the rounding
/// the executable loop performs.
pub open spec fn exp_series_term(r: int, k: nat) -> int
    decreases k,
{
    if k == 0 {
        SCALE as int
    } else {
        div_tz(exp_series_term(r, (k - 1) as nat) * r, k * (SCALE as int))
    }
}

/// Sum of the exponential series through term `k`.
pub open spec fn exp_series_sum(r: int, k: nat) -> int
    decreases k,
{
    if k == 0 {
        SCALE as int
    } else {
        exp_series_sum(r, (k - 1) as nat) + exp_series_term(r, k)
    }
}

/// The decaying exponential `exp(-x) * SCALE`: beyond the cutoff it is
/// zero; otherwise `x` is split as `n * ln 2 + r`, the series gives
/// `exp(r)`, and the result is `SCALE^2 / exp(r) / 2^n`.
pub open spec fn spec_exp_neg(x: int) -> int
    recommends
        x >= 0,
{
    if x >= EXP_ARG_CUT {
        0
    } else {
        let n: int = x / (LN2_FIX as int);
        let rr: int = x % (LN2_FIX as int);
        div_tz(div_tz((SCALE as int) * (SCALE as int), exp_series_sum(rr, 17)), pow2_int(n as nat))
    }
}

/// Exponential series on a reduced argument, `0 <= r < SCALE`.
fn exp_pos_small(r: i64) -> (res: i64)
    requires
        0 <= r < SCALE,
    ensures
        res as int == exp_series_sum(r as int, 17),
        SCALE <= res <= 18 * SCALE,
{
    let mut term: u128 = SCALE as u128;
    let mut sum: u128 = SCALE as u128;
    let mut k: u64 = 1;
    while k <= 17
        invariant
            1 <= k <= 18,
            0 <= r < SCALE,
            term as int == exp_series_term(r as int, (k - 1) as nat),
            sum as int == exp_series_sum(r as int, (k - 1) as nat),
            term <= SCALE as u128,
            SCALE as u128 <= sum <= (k as u128) * (SCALE as u128),
        decreases 18 - k,
    {
        proof {
            assert((term as int) * (r as int) <= (SCALE as int) * (SCALE as int))
                by (nonlinear_arith)
                requires
                    0 <= (term as int) <= SCALE as int,
                    0 <= (r as int) <= SCALE as int,
            ;
        }
        let num: u128 = term * (r as u128);
        let den: u128 = (k as u128) * (SCALE as u128);
        let next: u128 = num / den;
        assert(next as int == div_tz(exp_series_term(r as int, (k - 1) as nat) * r, (
        k as nat) * (SCALE as int)));
        assert(next <= term) by (nonlinear_arith)
            requires
                next == (term * (r as u128)) / ((k as u128) * (SCALE as u128)),
                0 <= r < SCALE,
                k >= 1,
                term <= SCALE as u128,
                SCALE == 1_000_000_000_000i64,
        ;
        term = next;
        sum = sum + term;
        k = k + 1;
    }
    assert(sum as int == exp_series_sum(r as int, 17));
    assert(sum <= 18 * (SCALE as u128));
    sum as i64
}

/// The decaying exponential, verified against `spec_exp_neg`.
///
/// The result is exact with respect to the integer model and always lies
/// in `[0, SCALE]`.
pub fn exp_neg(x: i64) -> (res: i64)
    requires
        x >= 0,
    ensures
        res as int == spec_exp_neg(x as int),
        0 <= res <= SCALE,
{
    if x >= EXP_ARG_CUT {
        return 0;
    }
    let xu: u64 = x as u64;
    let n: u64 = xu / (LN2_FIX as u64);
    let rr: u64 = xu % (LN2_FIX as u64);
    assert(n as int == (x as int) / (LN2_FIX as int));
    assert(rr as int == (x as int) % (LN2_FIX as int));
    let ep: i64 = exp_pos_small(rr as i64);
    let inv: u128 = ((SCALE as u128) * (SCALE as u128)) / (ep as u128);
    assert(inv as int == div_tz((SCALE as int) * (SCALE as int), ep as int));
    assert(((SCALE as int) * (SCALE as int)) / (ep as int) <= SCALE as int) by (nonlinear_arith)
        requires
            ep as int >= SCALE as int,
            SCALE == 1_000_000_000_000i64,
    ;
    assert(inv <= SCALE as u128);
    let mut v: u128 = inv;
    let mut i: u64 = 0;
    while i < n
        invariant
            0 <= i <= n,
            inv <= SCALE as u128,
            v as int == div_tz(inv as int, pow2_int(i as nat)),
            v <= inv,
        decreases n - i,
    {
        proof {
            lemma_pow2_int_pos(i as nat);
            lemma_pow2_int_pos((i + 1) as nat);
            lemma_div_denominator(inv as int, pow2_int(i as nat), 2);
        }
        assert(pow2_int((i + 1) as nat) == pow2_int(i as nat) * 2);
        v = v / 2;
        i = i + 1;
    }
    assert(v as int == spec_exp_neg(x as int));
    v as i64
}

/// Term `k` of the sine series (odd powers), capped, with the rounding
/// the executable loop performs; `r2` is the squared reduced argument.
pub open spec fn sin_series_term(r: int, r2: int, k: nat) -> int
    decreases k,
{
    if k == 0 {
        r
    } else {
        let t: int = div_tz(
            sin_series_term(r, r2, (k - 1) as nat) * r2,
            (2 * k) * (2 * k + 1) * (SCALE as int),
        );
        if t > TRIG_TERM_CAP {
            TRIG_TERM_CAP as int
        } else {
            t
        }
    }
}

/// Alternating sum of the sine series through term `k`.
pub open spec fn sin_series_sum(r: int, r2: int, k: nat) -> int
    decreases k,
{
    if k == 0 {
        r
    } else {
        sin_series_sum(r, r2, (k - 1) as nat) + if k % 2 == 1 {
            -sin_series_term(r, r2, k)
        } else {
            sin_series_term(r, r2, k)
        }
    }
}

/// Term `k` of the cosine series (even powers), capped.
pub open spec fn cos_series_term(r: int, r2: int, k: nat) -> int
    decreases k,
{
    if k == 0 {
        SCALE as int
    } else {
        let t: int = div_tz(
            cos_series_term(r, r2, (k - 1) as nat) * r2,
            (2 * k - 1) * (2 * k) * (SCALE as int),
        );
        if t > TRIG_TERM_CAP {
            TRIG_TERM_CAP as int
        } else {
            t
        }
    }
}

/// Alternating sum of the cosine series through term `k`.
pub open spec fn cos_series_sum(r: int, r2: int, k: nat) -> int
    decreases k,
{
    if k == 0 {
        SCALE as int
    } else {
        cos_series_sum(r, r2, (k - 1) as nat) + if k % 2 == 1 {
            -cos_series_term(r, r2, k)
        } else {
            cos_series_term(r, r2, k)
        }
    }
}

/// A value saturated into `[-SCALE, SCALE]`, the fixed-point unit
/// interval.
pub open spec fn clamp_unit(x: int) -> int {
    if x > SCALE {
        SCALE as int
    } else if x < -(SCALE as int) {
        -(SCALE as int)
    } else {
        x
    }
}

/// `sin(w) * SCALE` for `w >= 0`: the argument is reduced modulo one
/// turn and the alternating series is summed through term 18.
pub open spec fn spec_sin(w: int) -> int
    recommends
        w >= 0,
{
    let r: int = w % (TWO_PI_FIX as int);
    let r2: int = div_tz(r * r, SCALE as int);
    clamp_unit(sin_series_sum(r, r2, 18))
}

/// `cos(w) * SCALE` for `w >= 0`, reduced and summed like `spec_sin`.
pub open spec fn spec_cos(w: int) -> int
    recommends
        w >= 0,
{
    let r: int = w % (TWO_PI_FIX as int);
    let r2: int = div_tz(r * r, SCALE as int);
    clamp_unit(cos_series_sum(r, r2, 18))
}

/// Sine, verified against `spec_sin`; the result lies in
/// `[-SCALE, SCALE]`.
pub fn sin_fix(w: i64) -> (res: i64)
    requires
        w >= 0,
    ensures
        res as int == spec_sin(w as int),
        -SCALE <= res <= SCALE,
{
    let r: u64 = (w as u64) % (TWO_PI_FIX as u64);
    assert(r as int == (w as int) % (TWO_PI_FIX as int));
    proof {
        assert((r as int) * (r as int) <= (TWO_PI_FIX as int) * (TWO_PI_FIX as int))
            by (nonlinear_arith)
            requires
                0 <= (r as int),
                (r as int) < TWO_PI_FIX as int,
        ;
    }
    let r2: u128 = ((r as u128) * (r as u128)) / (SCALE as u128);
    assert(r2 as int == div_tz((r as int) * (r as int), SCALE as int));
    assert(((r as int) * (r as int)) / (SCALE as int) < 40 * (SCALE as int)) by (nonlinear_arith)
        requires
            0 <= (r as int),
            (r as int) < TWO_PI_FIX as int,
            TWO_PI_FIX == 6_283_185_307_180i64,
            SCALE == 1_000_000_000_000i64,
    ;
    assert(r2 < 40 * (SCALE as u128));
    let mut term: u128 = r as u128;
    let mut sum: i128 = r as i128;
    let mut k: u64 = 1;
    while k <= 18
        invariant
            1 <= k <= 19,
            r < TWO_PI_FIX as u64,
            r2 < 40 * (SCALE as u128),
            term as int == sin_series_term(r as int, r2 as int, (k - 1) as nat),
            sum as int == sin_series_sum(r as int, r2 as int, (k - 1) as nat),
            term <= TRIG_TERM_CAP as u128,
            mag(sum as int) <= (k as int) * (TRIG_TERM_CAP as int),
        decreases 19 - k,
    {
        proof {
            assert((term as int) * (r2 as int) <= (TRIG_TERM_CAP as int) * 40 * (SCALE as int))
                by (nonlinear_arith)
                requires
                    0 <= (term as int) <= TRIG_TERM_CAP as int,
                    0 <= (r2 as int),
                    (r2 as int) < 40 * (SCALE as int),
            ;
            assert(6 <= (2 * (k as int)) * (2 * (k as int) + 1) <= 1332) by (nonlinear_arith)
                requires
                    1 <= (k as int) <= 18,
            ;
        }
        let num: u128 = term * r2;
        let c: u64 = (2 * k) * (2 * k + 1);
        let den: u128 = (c as u128) * (SCALE as u128);
        let t: u128 = num / den;
        assert(t as int == div_tz(
            sin_series_term(r as int, r2 as int, (k - 1) as nat) * (r2 as int),
            (2 * (k as nat)) * (2 * (k as nat) + 1) * (SCALE as int),
        ));
        let t2: u128 = if t > TRIG_TERM_CAP as u128 {
            TRIG_TERM_CAP as u128
        } else {
            t
        };
        assert(t2 as int == sin_series_term(r as int, r2 as int, k as nat));
        term = t2;
        if k % 2 == 1 {
            sum = sum - t2 as i128;
        } else {
            sum = sum + t2 as i128;
        }
        assert(sum as int == sin_series_sum(r as int, r2 as int, k as nat));
        k = k + 1;
    }
    if sum > SCALE as i128 {
        SCALE
    } else if sum < -(SCALE as i128) {
        -SCALE
    } else {
        sum as i64
    }
}

/// Cosine, verified against `spec_cos`; the result lies in
/// `[-SCALE, SCALE]`.
pub fn cos_fix(w: i64) -> (res: i64)
    requires
        w >= 0,
    ensures
        res as int == spec_cos(w as int),
        -SCALE <= res <= SCALE,
{
    let r: u64 = (w as u64) % (TWO_PI_FIX as u64);
    assert(r as int == (w as int) % (TWO_PI_FIX as int));
    proof {
        assert((r as int) * (r as int) <= (TWO_PI_FIX as int) * (TWO_PI_FIX as int))
            by (nonlinear_arith)
            requires
                0 <= (r as int),
                (r as int) < TWO_PI_FIX as int,
        ;
    }
    let r2: u128 = ((r as u128) * (r as u128)) / (SCALE as u128);
    assert(r2 as int == div_tz((r as int) * (r as int), SCALE as int));
    assert(((r as int) * (r as int)) / (SCALE as int) < 40 * (SCALE as int)) by (nonlinear_arith)
        requires
            0 <= (r as int),
            (r as int) < TWO_PI_FIX as int,
            TWO_PI_FIX == 6_283_185_307_180i64,
            SCALE == 1_000_000_000_000i64,
    ;
    assert(r2 < 40 * (SCALE as u128));
    let mut term: u128 = SCALE as u128;
    let mut sum: i128 = SCALE as i128;
    let mut k: u64 = 1;
    while k <= 18
        invariant
            1 <= k <= 19,
            r < TWO_PI_FIX as u64,
            r2 < 40 * (SCALE as u128),
            term as int == cos_series_term(r as int, r2 as int, (k - 1) as nat),
            sum as int == cos_series_sum(r as int, r2 as int, (k - 1) as nat),
            term <= TRIG_TERM_CAP as u128,
            mag(sum as int) <= (k as int) * (TRIG_TERM_CAP as int),
        decreases 19 - k,
    {
        proof {
            assert((term as int) * (r2 as int) <= (TRIG_TERM_CAP as int) * 40 * (SCALE as int))
                by (nonlinear_arith)
                requires
                    0 <= (term as int) <= TRIG_TERM_CAP as int,
                    0 <= (r2 as int),
                    (r2 as int) < 40 * (SCALE as int),
            ;
            assert(2 <= (2 * (k as int) - 1) * (2 * (k as int)) <= 1332) by (nonlinear_arith)
                requires
                    1 <= (k as int) <= 18,
            ;
        }
        let num: u128 = term * r2;
        let c: u64 = (2 * k - 1) * (2 * k);
        let den: u128 = (c as u128) * (SCALE as u128);
        let t: u128 = num / den;
        assert(t as int == div_tz(
            cos_series_term(r as int, r2 as int, (k - 1) as nat) * (r2 as int),
            (2 * (k as nat) - 1) * (2 * (k as nat)) * (SCALE as int),
        ));
        let t2: u128 = if t > TRIG_TERM_CAP as u128 {
            TRIG_TERM_CAP as u128
        } else {
            t
        };
        assert(t2 as int == cos_series_term(r as int, r2 as int, k as nat));
        term = t2;
        if k % 2 == 1 {
            sum = sum - t2 as i128;
        } else {
            sum = sum + t2 as i128;
        }
        assert(sum as int == cos_series_sum(r as int, r2 as int, k as nat));
        k = k + 1;
    }
    if sum > SCALE as i128 {
        SCALE
    } else if sum < -(SCALE as i128) {
        -SCALE
    } else {
        sum as i64
    }
}

/// `r` is the integer square root of `n`.
pub open spec fn is_isqrt(n: int, r: int) -> bool {
    r >= 0 && r * r <= n && n < (r + 1) * (r + 1)
}

/// The integer square root, unique when it exists.
pub open spec fn spec_isqrt(n: int) -> int {
    choose|r: int| is_isqrt(n, r)
}

/// The square root of a scalar: `isqrt(x * SCALE)`, so that squaring the
/// result in fixed point gives back approximately `x`.
pub open spec fn spec_sqrt_scaled(x: int) -> int {
    spec_isqrt(x * (SCALE as int))
}

/// The integer square root is unique.
pub proof fn lemma_isqrt_unique(n: int, r1: int, r2: int)
    requires
        is_isqrt(n, r1),
        is_isqrt(n, r2),
    ensures
        r1 == r2,
{
    assert(r1 == r2) by (nonlinear_arith)
        requires
            r1 >= 0,
            r2 >= 0,
            r1 * r1 <= n,
            n < (r1 + 1) * (r1 + 1),
            r2 * r2 <= n,
            n < (r2 + 1) * (r2 + 1),
    ;
}

/// Fixed-point square root by bisection, verified against
/// `spec_sqrt_scaled`.
pub fn sqrt_fix(x: i64) -> (res: i64)
    requires
        x >= 0,
    ensures
        res as int == spec_sqrt_scaled(x as int),
        res >= 0,
        is_isqrt((x as int) * (SCALE as int), res as int),
{
    proof {
        assert((x as int) * (SCALE as int) <= (i64::MAX as int) * (SCALE as int))
            by (nonlinear_arith)
            requires
                0 <= (x as int) <= i64::MAX as int,
        ;
    }
    let n: u128 = (x as u128) * (SCALE as u128);
    let mut lo: u128 = 0;
    let mut hi: u128 = 0x10_0000_0000_0000u128;
    assert(n < hi * hi) by (nonlinear_arith)
        requires
            n == (x as u128) * (SCALE as u128),
            0 <= x <= i64::MAX,
            SCALE == 1_000_000_000_000i64,
            hi == 0x10_0000_0000_0000u128,
    ;
    while lo + 1 < hi
        invariant
            lo < hi,
            hi <= 0x10_0000_0000_0000u128,
            lo * lo <= n,
            n < hi * hi,
        decreases hi - lo,
    {
        let mid: u128 = lo + (hi - lo) / 2;
        assert(lo < mid < hi);
        assert(mid * mid < 0x100_0000_0000_0000_0000_0000_0000u128) by (nonlinear_arith)
            requires
                mid < 0x10_0000_0000_0000u128,
        ;
        if mid * mid <= n {
            lo = mid;
        } else {
            hi = mid;
        }
    }
    assert(hi == lo + 1);
    assert(is_isqrt(n as int, lo as int));
    proof {
        let w: int = lo as int;
        assert(is_isqrt(n as int, w));
        assert(is_isqrt(n as int, spec_isqrt(n as int))) by {
            assert(exists|r: int| is_isqrt(n as int, r));
        }
        lemma_isqrt_unique(n as int, w, spec_isqrt(n as int));
    }
    lo as i64
}

} // verus!
