//! The scalar type of the pipeline: signed fixed-point numbers with six
//! decimal places, stored as a count of millionths in an `i64`.
//!
//! Every arithmetic operation is saturating: a result beyond the `i64` range
//! is clamped to the nearest representable bound. Rescaling after a
//! multiplication or division truncates toward zero.

use vstd::prelude::*;

verus! {

/// Number of fixed-point units in one whole; scalars carry six decimal places.
pub const SCALE: i64 = 1_000_000;

/// A signed fixed-point scalar with six decimal places. The represented
/// value is `units / 1_000_000`.
#[derive(Clone, Copy, Debug, PartialEq, Eq, Structural)]
pub struct Fixed {
    pub units: i64,
}

/// The magnitude of a mathematical integer.
pub open spec fn mag(a: int) -> int {
    if a < 0 {
        -a
    } else {
        a
    }
}

/// Clamps a mathematical integer into the `i64` range.
pub open spec fn sat64(v: int) -> int {
    if v > i64::MAX {
        i64::MAX as int
    } else if v < i64::MIN {
        i64::MIN as int
    } else {
        v
    }
}

/// Integer division truncated toward zero, the rounding used by every
/// rescaling step in this crate.
pub open spec fn tdiv(a: int, b: int) -> int {
    if (a < 0) == (b < 0) {
        mag(a) / mag(b)
    } else {
        -(mag(a) / mag(b))
    }
}

/// Saturating addition on unit counts.
pub open spec fn fx_add(a: int, b: int) -> int {
    sat64(a + b)
}

/// Saturating fixed-point multiplication on unit counts: the exact product
/// is rescaled by `SCALE` with truncation toward zero, then clamped.
pub open spec fn fx_mul(a: int, b: int) -> int {
    sat64(tdiv(a * b, SCALE as int))
}

/// Saturating fixed-point division on unit counts: the dividend is raised by
/// `SCALE`, divided with truncation toward zero, then clamped.
pub open spec fn fx_div(a: int, b: int) -> int {
    sat64(tdiv(a * SCALE, b))
}

/// How a product's magnitude and sign decompose over its factors.
proof fn lemma_mag_mul(a: int, b: int)
    ensures
        mag(a * b) == mag(a) * mag(b),
        (a * b == 0) == (a == 0 || b == 0),
        ((a < 0) == (b < 0)) ==> a * b >= 0,
        ((a < 0) != (b < 0)) ==> a * b <= 0,
{
    if a >= 0 && b >= 0 {
        assert(a * b >= 0) by (nonlinear_arith)
            requires
                a >= 0,
                b >= 0,
        ;
    } else if a < 0 && b < 0 {
        assert(a * b >= 0 && a * b == (-a) * (-b)) by (nonlinear_arith)
            requires
                a < 0,
                b < 0,
        ;
    } else if a < 0 {
        assert(a * b <= 0 && -(a * b) == (-a) * b) by (nonlinear_arith)
            requires
                a < 0,
                b >= 0,
        ;
    } else {
        assert(a * b <= 0 && -(a * b) == a * (-b)) by (nonlinear_arith)
            requires
                a >= 0,
                b < 0,
        ;
    }
    if a == 0 || b == 0 {
        assert(a * b == 0) by (nonlinear_arith)
            requires
                a == 0 || b == 0,
        ;
    } else {
        assert(a * b != 0) by (nonlinear_arith)
            requires
                a != 0,
                b != 0,
        ;
    }
}

/// Clamps an `i128` into the `i64` range.
fn clamp_i128(v: i128) -> (r: i64)
    ensures
        r as int == sat64(v as int),
{
    if v > i64::MAX as i128 {
        i64::MAX
    } else if v < i64::MIN as i128 {
        i64::MIN
    } else {
        v as i64
    }
}

/// The magnitude of an `i64`, widened so that `i64::MIN` is representable.
fn mag64(a: i64) -> (r: u128)
    ensures
        r as int == mag(a as int),
{
    if a < 0 {
        (-(a as i128)) as u128
    } else {
        a as u128
    }
}

/// Rebuilds a signed, clamped `i64` from a sign and a magnitude.
fn from_mag(neg: bool, q: u128) -> (r: i64)
    ensures
        r as int == sat64(
            if neg {
                -(q as int)
            } else {
                q as int
            },
        ),
{
    if neg {
        if q >= 9_223_372_036_854_775_808u128 {
            i64::MIN
        } else {
            -(q as i64)
        }
    } else {
        if q > i64::MAX as u128 {
            i64::MAX
        } else {
            q as i64
        }
    }
}

impl Fixed {
    /// Wraps a raw count of millionths.
    pub fn from_units(units: i64) -> (r: Fixed)
        ensures
            r.units == units,
    {
        Fixed { units }
    }

    /// Saturating addition.
    pub fn sat_add(self, other: Fixed) -> (r: Fixed)
        ensures
            r.units as int == fx_add(self.units as int, other.units as int),
    {
        let s: i128 = self.units as i128 + other.units as i128;
        Fixed { units: clamp_i128(s) }
    }

    /// Saturating fixed-point multiplication with truncation toward zero.
    pub fn sat_mul(self, other: Fixed) -> (r: Fixed)
        ensures
            r.units as int == fx_mul(self.units as int, other.units as int),
    {
        let ghost a: int = self.units as int;
        let ghost b: int = other.units as int;
        let ma = mag64(self.units);
        let mb = mag64(other.units);
        proof {
            lemma_mag_mul(a, b);
            assert(ma * mb <= 0x8000_0000_0000_0000u128 * 0x8000_0000_0000_0000u128)
                by (nonlinear_arith)
                requires
                    ma <= 0x8000_0000_0000_0000u128,
                    mb <= 0x8000_0000_0000_0000u128,
            ;
        }
        let p: u128 = ma * mb;
        let q: u128 = p / (SCALE as u128);
        let neg = (self.units < 0) != (other.units < 0);
        proof {
            assert(q as int == mag(a * b) / (SCALE as int));
            if !neg {
                assert(tdiv(a * b, SCALE as int) == q as int);
            } else {
                assert(a * b <= 0);
                if a * b == 0 {
                    assert(q == 0);
                } else {
                    assert(tdiv(a * b, SCALE as int) == -(q as int));
                }
            }
        }
        Fixed { units: from_mag(neg, q) }
    }

    /// Saturating fixed-point division with truncation toward zero.
    pub fn sat_div(self, other: Fixed) -> (r: Fixed)
        requires
            other.units != 0,
        ensures
            r.units as int == fx_div(self.units as int, other.units as int),
    {
        let ghost a: int = self.units as int;
        let ghost b: int = other.units as int;
        let ma = mag64(self.units);
        let mb = mag64(other.units);
        proof {
            lemma_mag_mul(a, SCALE as int);
            assert(ma * (SCALE as u128) <= 0x8000_0000_0000_0000u128 * 1_000_000u128)
                by (nonlinear_arith)
                requires
                    ma <= 0x8000_0000_0000_0000u128,
            ;
        }
        let p: u128 = ma * (SCALE as u128);
        let q: u128 = p / mb;
        let neg = (self.units < 0) != (other.units < 0);
        proof {
            assert(mag(a * SCALE) == mag(a) * (SCALE as int));
            assert(q as int == mag(a * SCALE) / mag(b));
            if !neg {
                if a == 0 {
                    assert(q == 0);
                } else {
                    assert((a * SCALE < 0) == (b < 0));
                }
                assert(tdiv(a * SCALE, b) == q as int);
            } else {
                if a == 0 {
                    assert(q == 0);
                    assert(tdiv(a * SCALE, b) == 0);
                } else {
                    assert((a * SCALE < 0) != (b < 0));
                    assert(tdiv(a * SCALE, b) == -(q as int));
                }
            }
        }
        Fixed { units: from_mag(neg, q) }
    }
}

} // verus!
