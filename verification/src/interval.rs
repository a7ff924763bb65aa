//! A closed interval over raw fixed-point values, used both as a
//! ray-parameter acceptance window and as a color-channel clamp range.

use vstd::prelude::*;

verus! {

/// A closed interval
#[derive(Clone, Copy, Debug, PartialEq, Eq, Structural)]
pub struct Interval {
    pub min: i64,
    pub max: i64,
}

impl Interval {
    /// What `clamp` returns: `x` saturated into `[min, max]`.
    pub open spec fn clamped(self, x: int) -> int {
        if x < self.min {
            self.min as int
        } else if x > self.max {
            self.max as int
        } else {
            x
        }
    }

    /// Create a new `Interval`.
    pub fn new(min: i64, max: i64) -> (r: Self)
        ensures
            r.min == min,
            r.max == max,
    {
        Interval { min, max }
    }

    /// Checks if a value is in the `Interval`.
    pub fn contains(&self, x: i64) -> (r: bool)
        ensures
            r == (self.min <= x && x <= self.max),
    {
        self.min <= x && self.max >= x
    }

    /// Checks if a value is surrounded by the `Interval`, that is, it is part
    /// of the interval and not equal to the min or the max value.
    pub fn surrounds(&self, x: i64) -> (r: bool)
        ensures
            r == (self.min < x && x < self.max),
    {
        self.min < x && self.max > x
    }

    /// Clamp the value in the interval.
    pub fn clamp(&self, x: i64) -> (r: i64)
        ensures
            r == self.clamped(x as int),
    {
        if x < self.min {
            self.min
        } else if x > self.max {
            self.max
        } else {
            x
        }
    }

    /// The lower end of the interval.
    pub fn min(&self) -> (r: i64)
        ensures
            r == self.min,
    {
        self.min
    }

    /// The upper end of the interval.
    pub fn max(&self) -> (r: i64)
        ensures
            r == self.max,
    {
        self.max
    }
}

} // verus!
