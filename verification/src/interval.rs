//! Scalar ranges used to bound acceptable hit parameters.

use vstd::prelude::*;

verus! {

/// `min < x < max`: the open test every intersection routine applies.
pub open spec fn surrounds_s(min: int, max: int, x: int) -> bool {
    min < x < max
}

/// A numeric range with fixed-point endpoints.
#[derive(Clone, Copy, Debug, PartialEq, Eq, Structural)]
pub struct Interval {
    pub min: i64,
    pub max: i64,
}

impl Interval {
    /// The empty interval: every test against it fails.
    pub fn new() -> (r: Self)
        ensures
            r.min == i64::MAX,
            r.max == i64::MIN,
    {
        Self { min: i64::MAX, max: i64::MIN }
    }

    pub fn size(&self) -> (r: i64)
        requires
            i64::MIN <= self.max - self.min <= i64::MAX,
        ensures
            r == self.max - self.min,
    {
        self.max - self.min
    }

    /// Closed membership: `min <= x <= max`.
    pub fn contains(&self, x: i64) -> (r: bool)
        ensures
            r <==> self.min <= x <= self.max,
    {
        self.min <= x && x <= self.max
    }

    /// Open membership: `min < x < max`, the form that excludes
    /// self-intersection at the boundary.
    pub fn surrounds(&self, x: i64) -> (r: bool)
        ensures
            r <==> surrounds_s(self.min as int, self.max as int, x as int),
    {
        self.min < x && x < self.max
    }
}

} // verus!
