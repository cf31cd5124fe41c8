//! Two-dimensional extents, offsets, and the min/max constraint pairs that
//! bound a widget's permissible size during layout.
//!
//! All quantities are whole pixels. Arithmetic on extents saturates: layout
//! math (adding padding, subtracting overhead from a constraint) must never
//! wrap around or fail, only pin at the representable bounds.

use vstd::prelude::*;

verus! {

/// Saturating addition on pixel counts.
pub open spec fn sat_add(a: u32, b: u32) -> u32 {
    if a + b > u32::MAX {
        u32::MAX
    } else {
        (a + b) as u32
    }
}

/// Saturating subtraction on pixel counts.
pub open spec fn sat_sub(a: u32, b: u32) -> u32 {
    if a < b {
        0
    } else {
        (a - b) as u32
    }
}

/// `v` clamped into `[lo, hi]` (`lo` wins if the interval is empty).
pub open spec fn clamp_px(v: u32, lo: u32, hi: u32) -> u32 {
    if v < lo {
        lo
    } else if v > hi {
        hi
    } else {
        v
    }
}

/// Executable saturating addition on pixel counts.
pub fn sat_add_px(a: u32, b: u32) -> (r: u32)
    ensures
        r == sat_add(a, b),
{
    if a > u32::MAX - b {
        u32::MAX
    } else {
        a + b
    }
}

/// A two-dimensional extent (a size) or offset (a position relative to the
/// parent's content origin), in whole pixels.
#[derive(Clone, Copy, PartialEq, Eq, Structural, Debug)]
pub struct Extent2 {
    pub x: u32,
    pub y: u32,
}

impl Extent2 {
    pub open spec fn spec_zero() -> Extent2 {
        Extent2 { x: 0, y: 0 }
    }

    pub fn zero() -> (r: Extent2)
        ensures
            r == Extent2::spec_zero(),
    {
        Extent2 { x: 0, y: 0 }
    }

    pub fn new(x: u32, y: u32) -> (r: Extent2)
        ensures
            r.x == x,
            r.y == y,
    {
        Extent2 { x, y }
    }

    pub open spec fn spec_add_sat(self, other: Extent2) -> Extent2 {
        Extent2 { x: sat_add(self.x, other.x), y: sat_add(self.y, other.y) }
    }

    /// Component-wise saturating addition.
    pub fn add_sat(self, other: Extent2) -> (r: Extent2)
        ensures
            r == self.spec_add_sat(other),
    {
        let x: u32 = if self.x > u32::MAX - other.x {
            u32::MAX
        } else {
            self.x + other.x
        };
        let y: u32 = if self.y > u32::MAX - other.y {
            u32::MAX
        } else {
            self.y + other.y
        };
        Extent2 { x, y }
    }

    pub open spec fn spec_sub_sat(self, other: Extent2) -> Extent2 {
        Extent2 { x: sat_sub(self.x, other.x), y: sat_sub(self.y, other.y) }
    }

    /// Component-wise saturating subtraction.
    pub fn sub_sat(self, other: Extent2) -> (r: Extent2)
        ensures
            r == self.spec_sub_sat(other),
    {
        let x: u32 = if self.x < other.x {
            0
        } else {
            self.x - other.x
        };
        let y: u32 = if self.y < other.y {
            0
        } else {
            self.y - other.y
        };
        Extent2 { x, y }
    }

}

/// A pair of minimum and maximum extents bounding a widget's size.
///
/// Well-formed constraints satisfy `min <= max` component-wise; a widget's
/// chosen size must lie in `[min, max]` after clamping at the call boundary.
#[derive(Clone, Copy, PartialEq, Eq, Structural, Debug)]
pub struct Constraints {
    pub min: Extent2,
    pub max: Extent2,
}

impl Constraints {
    /// `min <= max` component-wise.
    pub open spec fn wf(self) -> bool {
        self.min.x <= self.max.x && self.min.y <= self.max.y
    }

    pub fn new(min: Extent2, max: Extent2) -> (r: Constraints)
        ensures
            r.min == min,
            r.max == max,
    {
        Constraints { min, max }
    }

    /// Constraints that admit any size up to `max`.
    pub fn loose(max: Extent2) -> (r: Constraints)
        ensures
            r.min == Extent2::spec_zero(),
            r.max == max,
            r.wf(),
    {
        Constraints { min: Extent2::zero(), max }
    }

    /// Whether `size` lies within the bounds, component-wise.
    pub open spec fn fits(self, size: Extent2) -> bool {
        self.min.x <= size.x && size.x <= self.max.x && self.min.y <= size.y && size.y
            <= self.max.y
    }

    pub open spec fn spec_constrain(self, size: Extent2) -> Extent2 {
        Extent2 {
            x: clamp_px(size.x, self.min.x, self.max.x),
            y: clamp_px(size.y, self.min.y, self.max.y),
        }
    }

    /// Clamp `size` into the bounds. For well-formed constraints the result
    /// always fits; an untrusted widget's size is never trusted unclamped.
    pub fn constrain(self, size: Extent2) -> (r: Extent2)
        ensures
            r == self.spec_constrain(size),
            self.wf() ==> self.fits(r),
    {
        let x: u32 = if size.x < self.min.x {
            self.min.x
        } else if size.x > self.max.x {
            self.max.x
        } else {
            size.x
        };
        let y: u32 = if size.y < self.min.y {
            self.min.y
        } else if size.y > self.max.y {
            self.max.y
        } else {
            size.y
        };
        Extent2 { x, y }
    }
}

} // verus!
