//! Values that are added with `+`: points of the plane, and lengths given
//! in different units.

use std::ops::Add;
use vstd::prelude::*;
use vstd::std_specs::ops::AddSpecImpl;

verus! {

/// A point of the integer plane.
#[derive(Debug, Copy, Clone, PartialEq, Eq, Structural)]
pub struct Point {
    pub x: i32,
    pub y: i32,
}

/// A length in millimetres.
#[derive(Debug, Copy, Clone, PartialEq, Eq, Structural)]
pub struct Millmeters(pub i32);

/// A length in metres.
#[derive(Debug, Copy, Clone, PartialEq, Eq, Structural)]
pub struct Meters(pub i32);

impl AddSpecImpl for Point {
    open spec fn obeys_add_spec() -> bool {
        true
    }

    /// Both coordinates of the sum must fit.
    open spec fn add_req(self, other: Point) -> bool {
        &&& i32::MIN <= self.x + other.x <= i32::MAX
        &&& i32::MIN <= self.y + other.y <= i32::MAX
    }

    open spec fn add_spec(self, other: Point) -> Point {
        Point { x: (self.x + other.x) as i32, y: (self.y + other.y) as i32 }
    }
}

impl Add for Point {
    type Output = Point;

    /// Adds two points coordinate by coordinate.
    fn add(self, other: Point) -> Point {
        Point { x: self.x + other.x, y: self.y + other.y }
    }
}

impl AddSpecImpl<Meters> for Millmeters {
    open spec fn obeys_add_spec() -> bool {
        true
    }

    /// The metres in millimetres must fit, and so must the sum.
    open spec fn add_req(self, other: Meters) -> bool {
        &&& i32::MIN <= other.0 * 1000 <= i32::MAX
        &&& i32::MIN <= self.0 + other.0 * 1000 <= i32::MAX
    }

    open spec fn add_spec(self, other: Meters) -> Millmeters {
        Millmeters((self.0 + other.0 * 1000) as i32)
    }
}

impl Add<Meters> for Millmeters {
    type Output = Millmeters;

    /// Adds a length in metres to a length in millimetres; the sum is in
    /// millimetres.
    fn add(self, other: Meters) -> Millmeters {
        Millmeters(self.0 + other.0 * 1000)
    }
}

} // verus!
