//! Scaled-integer ("fixed-point") scalar arithmetic.
//!
//! A scalar is an `i64` counting units of `1 / SCALE`. Multiplication and
//! division of scalars rescale their double-width intermediate result and
//! round it toward zero; the spec functions here state that arithmetic
//! exactly, over mathematical integers, so contracts elsewhere can pin
//! results down to the unit.

use vstd::prelude::*;

verus! {

use vstd::arithmetic::div_mod::lemma_div_is_ordered;
use vstd::math::abs;

/// Magnitude of an integer, as an `int`.
pub open spec fn mag(x: int) -> int {
    abs(x) as int
}

/// Number of fixed-point units in one whole; a scalar has twelve decimal
/// fractional digits.
pub const SCALE: i64 = 1_000_000_000_000;

pub open spec fn fits_i64(x: int) -> bool {
    i64::MIN <= x <= i64::MAX
}

/// Quotient rounded toward zero, for a positive divisor: the rounding the
/// executable magnitude arithmetic below produces.
pub open spec fn div_tz(x: int, d: int) -> int
    recommends
        d > 0,
{
    if x >= 0 {
        x / d
    } else {
        -((-x) / d)
    }
}

/// Fixed-point product of two scalars: `(a * b) / SCALE`, toward zero.
pub open spec fn mul_scaled(a: int, b: int) -> int {
    div_tz(a * b, SCALE as int)
}

/// Fixed-point quotient of two scalars: `(a * SCALE) / b`, toward zero.
pub open spec fn div_scaled(a: int, b: int) -> int
    recommends
        b != 0,
{
    if b >= 0 {
        div_tz(a * (SCALE as int), b)
    } else {
        div_tz(-(a * (SCALE as int)), -b)
    }
}

/// Saturation of an unbounded integer into the `i64` range.
pub open spec fn clamp_i64(x: int) -> int {
    if x > i64::MAX {
        i64::MAX as int
    } else if x < i64::MIN {
        i64::MIN as int
    } else {
        x
    }
}

/// A product decomposes into the product of the magnitudes and a sign.
pub proof fn lemma_mul_sign_mag(a: int, b: int)
    ensures
        a * b == if (a < 0) != (b < 0) {
            -(mag(a) * mag(b))
        } else {
            (mag(a) * mag(b)) as int
        },
{
    if a >= 0 && b >= 0 {
        assert(mag(a) * mag(b) == a * b);
    } else if a < 0 && b < 0 {
        assert(a * b == (-a) * (-b)) by (nonlinear_arith);
        assert(mag(a) * mag(b) == (-a) * (-b));
    } else if a < 0 {
        assert(a * b == -((-a) * b)) by (nonlinear_arith);
        assert(mag(a) * mag(b) == (-a) * b);
    } else {
        assert(a * b == -(a * (-b))) by (nonlinear_arith);
        assert(mag(a) * mag(b) == a * (-b));
    }
}

/// `mul_scaled` is the magnitude quotient with the product's sign.
pub proof fn lemma_mul_scaled_decompose(a: int, b: int)
    ensures
        mul_scaled(a, b) == if (a < 0) != (b < 0) {
            -((mag(a) * mag(b)) / (SCALE as int))
        } else {
            (mag(a) * mag(b)) / (SCALE as int)
        },
{
    lemma_mul_sign_mag(a, b);
    let m: int = (mag(a) * mag(b)) as int;
    if (a < 0) != (b < 0) {
        assert(a * b == -m);
        if m == 0 {
            assert(div_tz(a * b, SCALE as int) == 0int / (SCALE as int));
        } else {
            assert(a * b < 0);
            assert(div_tz(a * b, SCALE as int) == -(m / (SCALE as int)));
        }
    } else {
        assert(a * b == m);
    }
}

/// `div_scaled` is the magnitude quotient with the operands' sign.
pub proof fn lemma_div_scaled_decompose(a: int, b: int)
    requires
        b != 0,
    ensures
        div_scaled(a, b) == if (a < 0) != (b < 0) {
            -((mag(a) * (SCALE as int)) / mag(b))
        } else {
            (mag(a) * (SCALE as int)) / mag(b)
        },
{
    let s: int = SCALE as int;
    let m: int = (mag(a) * s) as int;
    if a >= 0 {
        assert(mag(a) * s == a * s);
    } else {
        assert(a * s == -((-a) * s)) by (nonlinear_arith);
        assert(mag(a) * s == (-a) * s);
    }
    if b >= 0 {
        if a >= 0 {
            assert(div_scaled(a, b) == (a * s) / b);
        } else {
            assert(a * s == -m);
            if m == 0 {
                assert(div_tz(a * s, b) == 0int / b);
            } else {
                assert(div_tz(a * s, b) == -(m / b));
            }
        }
    } else {
        if a >= 0 {
            assert(-(a * s) == -m);
            if m == 0 {
                assert(div_tz(-(a * s), -b) == 0int / (-b));
            } else {
                assert(div_tz(-(a * s), -b) == -(m / (-b)));
            }
        } else {
            assert(-(a * s) == m);
            assert(div_tz(-(a * s), -b) == m / (-b));
        }
    }
}

/// Scaling by a factor of magnitude at most one cannot grow a scalar.
pub proof fn lemma_mul_scaled_contracts(a: int, b: int)
    requires
        mag(b) <= SCALE,
    ensures
        mag(mul_scaled(a, b)) <= mag(a),
{
    lemma_mul_scaled_decompose(a, b);
    let s: int = SCALE as int;
    assert(mag(a) * mag(b) <= mag(a) * s) by (nonlinear_arith)
        requires
            mag(b) <= s,
    ;
    lemma_div_is_ordered((mag(a) * mag(b)) as int, mag(a) * s, s);
    assert(mag(a) * s / s == mag(a)) by (nonlinear_arith)
        requires
            s == SCALE as int,
    ;
}

/// Multiplying by a whole number of ones is exact.
pub proof fn lemma_mul_scaled_one(a: int)
    ensures
        mul_scaled(SCALE as int, a) == a,
        mul_scaled(a, SCALE as int) == a,
        mul_scaled(0, a) == 0,
{
    let s: int = SCALE as int;
    lemma_mul_scaled_decompose(s, a);
    lemma_mul_scaled_decompose(a, s);
    lemma_mul_scaled_decompose(0, a);
    assert(mag(s) * mag(a) == mag(a) * mag(s)) by (nonlinear_arith);
    assert(mag(a) * mag(s) == mag(a) * s);
    assert(mag(a) * s / s == mag(a)) by (nonlinear_arith)
        requires
            s == SCALE as int,
    ;
    assert(mag(0) * mag(a) == 0) by (nonlinear_arith);
}

/// Magnitude-and-sign form of the fixed-point product, shared by the
/// checking, saturating and exact multiplication below.
fn mul_scaled_mag(a: i64, b: i64) -> (r: (u128, bool))
    ensures
        r.0 as int == (mag(a as int) * mag(b as int)) / (SCALE as int),
        r.1 == ((a < 0) != (b < 0)),
        mul_scaled(a as int, b as int) == if r.1 {
            -(r.0 as int)
        } else {
            r.0 as int
        },
{
    proof {
        lemma_mul_scaled_decompose(a as int, b as int);
    }
    let neg: bool = (a < 0) != (b < 0);
    let ma: u128 = if a >= 0 {
        a as u128
    } else {
        (-(a as i128)) as u128
    };
    let mb: u128 = if b >= 0 {
        b as u128
    } else {
        (-(b as i128)) as u128
    };
    assert(ma == mag(a as int));
    assert(mb == mag(b as int));
    assert(ma * mb <= 0x4000_0000_0000_0000_0000_0000_0000_0000u128) by (nonlinear_arith)
        requires
            ma <= 0x8000_0000_0000_0000u128,
            mb <= 0x8000_0000_0000_0000u128,
    ;
    let p: u128 = ma * mb;
    let q: u128 = p / (SCALE as u128);
    (q, neg)
}

/// Fixed-point multiplication whose result is known to fit.
pub fn fix_mul(a: i64, b: i64) -> (r: i64)
    requires
        fits_i64(mul_scaled(a as int, b as int)),
    ensures
        r as int == mul_scaled(a as int, b as int),
{
    let (q, neg): (u128, bool) = mul_scaled_mag(a, b);
    if neg {
        if q == 0x8000_0000_0000_0000u128 {
            i64::MIN
        } else {
            assert(q <= i64::MAX as u128);
            -(q as i64)
        }
    } else {
        assert(q <= i64::MAX as u128);
        q as i64
    }
}

/// Fixed-point multiplication that reports a result out of range.
pub fn fix_mul_checked(a: i64, b: i64) -> (r: Option<i64>)
    ensures
        match r {
            Some(v) => fits_i64(mul_scaled(a as int, b as int)) && v as int == mul_scaled(
                a as int,
                b as int,
            ),
            None => !fits_i64(mul_scaled(a as int, b as int)),
        },
{
    let (q, neg): (u128, bool) = mul_scaled_mag(a, b);
    if neg {
        if q == 0x8000_0000_0000_0000u128 {
            Some(i64::MIN)
        } else if q < 0x8000_0000_0000_0000u128 {
            Some(-(q as i64))
        } else {
            None
        }
    } else {
        if q <= i64::MAX as u128 {
            Some(q as i64)
        } else {
            None
        }
    }
}

/// Fixed-point multiplication that saturates at the ends of the range.
pub fn fix_mul_sat(a: i64, b: i64) -> (r: i64)
    ensures
        r as int == clamp_i64(mul_scaled(a as int, b as int)),
{
    let (q, neg): (u128, bool) = mul_scaled_mag(a, b);
    if neg {
        if q >= 0x8000_0000_0000_0000u128 {
            i64::MIN
        } else {
            -(q as i64)
        }
    } else {
        if q <= i64::MAX as u128 {
            q as i64
        } else {
            i64::MAX
        }
    }
}

/// Fixed-point division that reports a zero divisor or a result out of
/// range.
pub fn fix_div_checked(a: i64, b: i64) -> (r: Option<i64>)
    ensures
        match r {
            Some(v) => b != 0 && fits_i64(div_scaled(a as int, b as int)) && v as int
                == div_scaled(a as int, b as int),
            None => b == 0 || !fits_i64(div_scaled(a as int, b as int)),
        },
{
    if b == 0 {
        return None;
    }
    proof {
        lemma_div_scaled_decompose(a as int, b as int);
    }
    let neg: bool = (a < 0) != (b < 0);
    let ma: u128 = if a >= 0 {
        a as u128
    } else {
        (-(a as i128)) as u128
    };
    let mb: u128 = if b >= 0 {
        b as u128
    } else {
        (-(b as i128)) as u128
    };
    assert(ma == mag(a as int));
    assert(mb == mag(b as int));
    assert(ma * (SCALE as u128) <= 0x4000_0000_0000_0000_0000_0000_0000_0000u128)
        by (nonlinear_arith)
        requires
            ma <= 0x8000_0000_0000_0000u128,
            SCALE as u128 <= 0x8000_0000_0000_0000u128,
    ;
    let q: u128 = (ma * (SCALE as u128)) / (mb as u128);
    if neg {
        if q == 0x8000_0000_0000_0000u128 {
            Some(i64::MIN)
        } else if q < 0x8000_0000_0000_0000u128 {
            Some(-(q as i64))
        } else {
            None
        }
    } else {
        if q <= i64::MAX as u128 {
            Some(q as i64)
        } else {
            None
        }
    }
}

/// Addition that reports a result out of range.
pub fn add_checked(a: i64, b: i64) -> (r: Option<i64>)
    ensures
        match r {
            Some(v) => fits_i64(a + b) && v as int == a + b,
            None => !fits_i64(a + b),
        },
{
    let s: i128 = a as i128 + b as i128;
    if s >= i64::MIN as i128 && s <= i64::MAX as i128 {
        Some(s as i64)
    } else {
        None
    }
}

/// Subtraction that reports a result out of range.
pub fn sub_checked(a: i64, b: i64) -> (r: Option<i64>)
    ensures
        match r {
            Some(v) => fits_i64(a - b) && v as int == a - b,
            None => !fits_i64(a - b),
        },
{
    let s: i128 = a as i128 - b as i128;
    if s >= i64::MIN as i128 && s <= i64::MAX as i128 {
        Some(s as i64)
    } else {
        None
    }
}

} // verus!
