//! Exact fixed-point decimal numbers: a value is a count of `1 / SCALE`
//! units, so every number carries exactly ten decimal places.

use vstd::prelude::*;

verus! {

/// Units in one whole: ten decimal places of precision.
pub const SCALE: i128 = 10_000_000_000;

/// Largest magnitude a number may take, in units (one billion wholes).
pub const MAX_UNITS: i128 = 10_000_000_000_000_000_000;

/// The range every `Fixed` value stays within.
pub open spec fn in_range(n: int) -> bool {
    -(MAX_UNITS as int) <= n <= MAX_UNITS as int
}

/// Rounds `p / q` to the nearest integer, halves rounded up.
/// Intended for `p >= 0` and `q > 0`.
pub open spec fn round_div(p: int, q: int) -> int {
    (2 * p + q) / (2 * q)
}

/// The product of two numbers given in units, itself in units, rounded to
/// the nearest unit with halves away from zero.
pub open spec fn mul_units(a: int, b: int) -> int {
    let m = round_div(vstd::math::abs(a) as int * vstd::math::abs(b) as int, SCALE as int);
    if (a < 0) == (b < 0) {
        m
    } else {
        -m
    }
}

/// The quotient of two numbers given in units, itself in units, rounded to
/// the nearest unit with halves away from zero.  Intended for `b != 0`.
pub open spec fn div_units(a: int, b: int) -> int {
    let m = round_div(vstd::math::abs(a) as int * (SCALE as int), vstd::math::abs(b) as int);
    if (a < 0) == (b < 0) {
        m
    } else {
        -m
    }
}

/// A fixed-point decimal number; its view is its count of units.
#[derive(Clone, Copy, Debug)]
pub struct Fixed {
    units: i128,
}

impl View for Fixed {
    type V = int;

    closed spec fn view(&self) -> int {
        self.units as int
    }
}

impl Fixed {
    /// Holds of every `Fixed` value: its unit count stays in range.
    #[verifier::type_invariant]
    pub open spec fn wf(self) -> bool {
        in_range(self@)
    }

    /// The number counting `units` fixed-point units.
    pub fn from_units(units: i128) -> (r: Fixed)
        requires
            in_range(units as int),
        ensures
            r@ == units as int,
    {
        Fixed { units }
    }

    /// The count of units this number holds.
    pub fn units(&self) -> (r: i128)
        ensures
            r as int == self@,
    {
        self.units
    }
}

} // verus!
