//! Fixed-point numbers.
//!
//! Every length, coordinate and numeric style value is a [`Fixed`]: a signed count of
//! thousandths. Results that leave the representable range are clamped to its
//! nearest end, so arithmetic is total and every contract can be read as "the exact
//! integer result, clamped".

use vstd::prelude::*;

verus! {

/// Number of raw units that make one whole.
pub const SCALE: i64 = 1000;

/// A fixed-point number with three decimal places, stored as a count of thousandths.
#[derive(Clone, Copy, Debug, PartialEq, Eq, Structural)]
pub struct Fixed(pub i64);

/// The nearest `i64` to the integer `v`.
pub open spec fn clamp(v: int) -> i64 {
    if v < i64::MIN {
        i64::MIN
    } else if v > i64::MAX {
        i64::MAX
    } else {
        v as i64
    }
}

/// Half of `v`, rounded toward zero.
pub open spec fn half(v: int) -> int {
    if v >= 0 {
        v / 2
    } else {
        -((-v) / 2)
    }
}

/// Index of the pixel column (or row) in which the coordinate `v`, given in raw units,
/// falls, confined to `0..=limit`. Coordinates left of the origin map to 0 and the
/// fractional part is dropped.
pub open spec fn pixel_edge(v: int, limit: int) -> int {
    if v <= 0 || limit <= 0 {
        0
    } else if v / (SCALE as int) >= limit {
        limit
    } else {
        v / (SCALE as int)
    }
}

impl Fixed {
    /// The number whose raw value is the nearest representable one to `units`.
    pub open spec fn of(units: int) -> Fixed {
        Fixed(clamp(units))
    }

    /// Number of whole pixels a canvas needs for an extent of this size: the integral
    /// part for positive values, 0 otherwise, and never more than `usize::MAX`.
    pub open spec fn spec_pixels(self) -> int {
        pixel_edge(self.0 as int, usize::MAX as int)
    }

    /// The number 0.
    pub fn zero() -> (r: Fixed)
        ensures
            r == Fixed(0),
    {
        Fixed(0)
    }

    /// The whole number `n`.
    pub fn from_int(n: i32) -> (r: Fixed)
        ensures
            r.0 == n * SCALE,
    {
        Fixed((n as i64) * SCALE)
    }

    /// The number with raw value `units`, clamped into range.
    pub fn from_units(units: i128) -> (r: Fixed)
        ensures
            r == Fixed::of(units as int),
    {
        if units < i64::MIN as i128 {
            Fixed(i64::MIN)
        } else if units > i64::MAX as i128 {
            Fixed(i64::MAX)
        } else {
            Fixed(units as i64)
        }
    }

    /// The raw value, widened so that sums of a few terms cannot overflow.
    pub fn wide(self) -> (r: i128)
        ensures
            r == self.0,
    {
        self.0 as i128
    }

    /// See [`Fixed::spec_pixels`].
    pub fn pixels(self) -> (r: usize)
        ensures
            r == self.spec_pixels(),
    {
        to_pixel_edge(self.0 as i128, usize::MAX)
    }
}

impl Default for Fixed {
    fn default() -> (r: Fixed)
        ensures
            r == Fixed(0),
    {
        Fixed(0)
    }
}

/// Half of `v`, rounded toward zero.
pub fn halve(v: i128) -> (r: i128)
    ensures
        r == half(v as int),
{
    v / 2
}

/// See [`pixel_edge`].
pub fn to_pixel_edge(v: i128, limit: usize) -> (r: usize)
    ensures
        r == pixel_edge(v as int, limit as int),
        r <= limit,
{
    if v <= 0 || limit == 0 {
        0
    } else {
        let q: i128 = v / (SCALE as i128);
        if q >= limit as i128 {
            limit
        } else {
            q as usize
        }
    }
}

} // verus!
