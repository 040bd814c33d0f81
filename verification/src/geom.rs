//! Integer angle arithmetic and fixed-point trigonometry.
//!
//! A full turn is `ANGLE_FULL` angle units; headings are kept in the
//! half-open interval `(-ANGLE_HALF, ANGLE_HALF]`, the integer counterpart
//! of `(-pi, pi]`.  Sine and cosine are computed as exact integer rational
//! approximations scaled by `TRIG_ONE`; they take the exact values
//! `0, TRIG_ONE, -TRIG_ONE` at the four cardinal directions.
use vstd::prelude::*;

verus! {

/// Angle units in a full turn.
pub const ANGLE_FULL: i64 = 21600;

/// Angle units in a half turn.
pub const ANGLE_HALF: i64 = 10800;

/// Angle units in a quarter turn.
pub const ANGLE_QUARTER: i64 = 5400;

/// Fixed-point scale of the trigonometric tables: `sin`/`cos` range over
/// `[-TRIG_ONE, TRIG_ONE]`.
pub const TRIG_ONE: i64 = 1024;

/// Denominator offset of the sine approximation: `5 * ANGLE_HALF^2 / 4`.
pub const SIN_DEN: i64 = 145_800_000;

/// Largest value of `a * (ANGLE_HALF - a)` for `a` in `[0, ANGLE_HALF]`.
pub const SIN_PEAK: i64 = 29_160_000;

/// One reduction step into `[0, ANGLE_FULL)` for angles at most one turn out.
pub open spec fn wrapped360(a: int) -> int {
    if a < 0 {
        a + ANGLE_FULL
    } else if a >= ANGLE_FULL {
        a - ANGLE_FULL
    } else {
        a
    }
}

/// Normalizes an angle at most one turn outside `[0, ANGLE_FULL)`.
pub fn wrap_angle(a: i64) -> (r: i64)
    requires
        -ANGLE_FULL <= a < 2 * ANGLE_FULL,
    ensures
        r == wrapped360(a as int),
        0 <= r < ANGLE_FULL,
{
    if a < 0 {
        a + ANGLE_FULL
    } else if a >= ANGLE_FULL {
        a - ANGLE_FULL
    } else {
        a
    }
}

/// One reduction step into the signed heading interval `(-ANGLE_HALF, ANGLE_HALF]`.
pub open spec fn wrapped_signed(a: int) -> int {
    if a > ANGLE_HALF {
        a - ANGLE_FULL
    } else if a <= -ANGLE_HALF {
        a + ANGLE_FULL
    } else {
        a
    }
}

/// Normalizes an angle within one turn of zero into `(-ANGLE_HALF, ANGLE_HALF]`.
pub fn wrap_signed(a: i64) -> (r: i64)
    requires
        -ANGLE_FULL <= a <= ANGLE_FULL,
    ensures
        r == wrapped_signed(a as int),
        -ANGLE_HALF < r <= ANGLE_HALF,
{
    if a > ANGLE_HALF {
        a - ANGLE_FULL
    } else if a <= -ANGLE_HALF {
        a + ANGLE_FULL
    } else {
        a
    }
}

/// Unsigned angular distance between two angles, in `[0, ANGLE_HALF]`.
pub open spec fn spec_angular_distance(a: int, b: int) -> int {
    let d0 = if a - b >= 0 {
        a - b
    } else {
        b - a
    };
    let d = if d0 >= ANGLE_FULL {
        d0 - ANGLE_FULL
    } else {
        d0
    };
    if d <= ANGLE_FULL - d {
        d
    } else {
        ANGLE_FULL - d
    }
}

/// Distance between two angles along the shorter way around the circle.
pub fn angular_distance(a: i64, b: i64) -> (r: i64)
    requires
        -ANGLE_FULL <= a <= ANGLE_FULL,
        -ANGLE_FULL <= b <= ANGLE_FULL,
    ensures
        r == spec_angular_distance(a as int, b as int),
        0 <= r <= ANGLE_HALF,
{
    let d0: i64 = if a - b >= 0 {
        a - b
    } else {
        b - a
    };
    let d: i64 = if d0 >= ANGLE_FULL {
        d0 - ANGLE_FULL
    } else {
        d0
    };
    if d <= ANGLE_FULL - d {
        d
    } else {
        ANGLE_FULL - d
    }
}

/// Reduction of an angle within two turns of zero into `[0, ANGLE_FULL)`.
pub open spec fn norm360_wide(a: int) -> int {
    let b = if a < 0 {
        a + 2 * ANGLE_FULL
    } else {
        a
    };
    let c = if b >= ANGLE_FULL {
        b - ANGLE_FULL
    } else {
        b
    };
    if c >= ANGLE_FULL {
        c - ANGLE_FULL
    } else {
        c
    }
}

/// Signed length of the shorter arc from `from` to `to`, in
/// `(-ANGLE_HALF, ANGLE_HALF]`.
pub open spec fn spec_shortest_delta(from: int, to: int) -> int {
    let d = norm360_wide(to - from);
    if d > ANGLE_HALF {
        d - ANGLE_FULL
    } else {
        d
    }
}

/// Signed turn that reaches `to` from `from` the shorter way around.
pub fn shortest_angle_delta(from: i64, to: i64) -> (r: i64)
    requires
        -ANGLE_FULL <= from <= ANGLE_FULL,
        -ANGLE_FULL <= to <= ANGLE_FULL,
    ensures
        r == spec_shortest_delta(from as int, to as int),
        -ANGLE_HALF < r <= ANGLE_HALF,
{
    let a: i64 = to - from;
    let b: i64 = if a < 0 {
        a + 2 * ANGLE_FULL
    } else {
        a
    };
    let c: i64 = if b >= ANGLE_FULL {
        b - ANGLE_FULL
    } else {
        b
    };
    let d: i64 = if c >= ANGLE_FULL {
        c - ANGLE_FULL
    } else {
        c
    };
    if d > ANGLE_HALF {
        d - ANGLE_FULL
    } else {
        d
    }
}

/// Clamping of a value into `[lo, hi]`.
pub open spec fn clamped(v: int, lo: int, hi: int) -> int {
    if v < lo {
        lo
    } else if v > hi {
        hi
    } else {
        v
    }
}

/// Clamps `v` into `[lo, hi]`.
pub fn clamp_i64(v: i64, lo: i64, hi: i64) -> (r: i64)
    requires
        lo <= hi,
    ensures
        r == clamped(v as int, lo as int, hi as int),
{
    if v < lo {
        lo
    } else if v > hi {
        hi
    } else {
        v
    }
}

/// Quotient of nonnegative values, rounded toward zero.
pub fn div_nn(a: i64, b: i64) -> (r: i64)
    requires
        0 <= a,
        1 <= b,
    ensures
        r == a as int / b as int,
        0 <= r <= a,
{
    proof {
        vstd::arithmetic::div_mod::lemma_div_is_ordered_by_denominator(a as int, 1, b as int);
        vstd::arithmetic::div_mod::lemma_div_basics(a as int);
        vstd::arithmetic::div_mod::lemma_div_pos_is_pos(a as int, b as int);
    }
    ((a as u64) / (b as u64)) as i64
}

/// Quotient rounded toward zero, for a possibly negative numerator.
pub open spec fn div_trunc(a: int, b: int) -> int {
    if a >= 0 {
        a / b
    } else {
        -((-a) / b)
    }
}

/// Division rounding toward zero, the rounding of a float-to-integer
/// cast.
pub fn div_trunc_i64(a: i64, b: i64) -> (r: i64)
    requires
        1 <= b,
        -1_000_000_000_000_000 <= a <= 1_000_000_000_000_000,
    ensures
        r == div_trunc(a as int, b as int),
        a >= 0 ==> 0 <= r <= a,
        a < 0 ==> a <= r <= 0,
{
    if a >= 0 {
        div_nn(a, b)
    } else {
        -div_nn(-a, b)
    }
}

/// Sine of an angle in `[0, ANGLE_HALF]`, scaled by `TRIG_ONE`: the integer
/// rational approximation `4 p TRIG_ONE / (SIN_DEN - p)` with
/// `p = a (ANGLE_HALF - a)`.
pub open spec fn sin_lobe(a: int) -> int {
    (4 * (a * (ANGLE_HALF - a)) * TRIG_ONE) / (SIN_DEN - a * (ANGLE_HALF - a))
}

/// Sine of a normalized angle in `[0, ANGLE_FULL)`, scaled by `TRIG_ONE`.
pub open spec fn sin_units(a: int) -> int {
    if a <= ANGLE_HALF {
        sin_lobe(a)
    } else {
        -sin_lobe(a - ANGLE_HALF)
    }
}

/// Cosine of a normalized angle in `[0, ANGLE_FULL)`, scaled by `TRIG_ONE`.
pub open spec fn cos_units(a: int) -> int {
    sin_units(wrapped360(a + ANGLE_QUARTER))
}

/// Fixed-point sine of a normalized angle.
pub fn sin_fixed(a: i64) -> (r: i64)
    requires
        0 <= a < ANGLE_FULL,
    ensures
        r == sin_units(a as int),
        -TRIG_ONE <= r <= TRIG_ONE,
{
    let b: i64 = if a > ANGLE_HALF {
        a - ANGLE_HALF
    } else {
        a
    };
    assert(0 <= b * (ANGLE_HALF - b) <= SIN_PEAK) by (nonlinear_arith)
        requires
            0 <= b <= 10800,
    ;
    let p: i64 = b * (ANGLE_HALF - b);
    let num: i64 = 4 * p * TRIG_ONE;
    let den: i64 = SIN_DEN - p;
    let q: i64 = div_nn(num, den);
    proof {
        assert(num <= TRIG_ONE * den);
        vstd::arithmetic::div_mod::lemma_div_is_ordered(num as int, TRIG_ONE * den, den as int);
        vstd::arithmetic::div_mod::lemma_div_multiples_vanish(TRIG_ONE as int, den as int);
    }
    if a > ANGLE_HALF {
        -q
    } else {
        q
    }
}

/// Fixed-point cosine of a normalized angle.
pub fn cos_fixed(a: i64) -> (r: i64)
    requires
        0 <= a < ANGLE_FULL,
    ensures
        r == cos_units(a as int),
        -TRIG_ONE <= r <= TRIG_ONE,
{
    sin_fixed(wrap_angle(a + ANGLE_QUARTER))
}

} // verus!
