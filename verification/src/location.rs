//! Integer grid coordinates.

use vstd::prelude::*;

verus! {

/// An integer coordinate pair. Equality and hashing go by the two components.
#[derive(Clone, Copy, Debug, PartialEq, Eq, Structural, Hash)]
pub struct Location {
    pub x: i32,
    pub y: i32,
}

/// The absolute difference of two coordinates.
fn gap(a: i32, b: i32) -> (r: u64)
    ensures
        r == if a >= b { a - b } else { b - a },
{
    let wide_a: i64 = a as i64;
    let wide_b: i64 = b as i64;
    if wide_a >= wide_b {
        (wide_a - wide_b) as u64
    } else {
        (wide_b - wide_a) as u64
    }
}

impl Location {
    /// The pair `(x, y)`.
    pub fn new(x: i32, y: i32) -> (r: Location)
        ensures
            r == (Location { x, y }),
    {
        Location { x, y }
    }

    /// The origin.
    pub fn zero() -> (r: Location)
        ensures
            r == (Location { x: 0, y: 0 }),
    {
        Location { x: 0, y: 0 }
    }

    /// `self` displaced by `d`. Meaningful where both sums fit in `i32`.
    pub open spec fn plus(self, d: Location) -> Location
        recommends
            i32::MIN <= self.x + d.x <= i32::MAX,
            i32::MIN <= self.y + d.y <= i32::MAX,
    {
        Location { x: (self.x + d.x) as i32, y: (self.y + d.y) as i32 }
    }

    /// `self` displaced against `d`. Meaningful where both differences fit in `i32`.
    pub open spec fn minus(self, d: Location) -> Location
        recommends
            i32::MIN <= self.x - d.x <= i32::MAX,
            i32::MIN <= self.y - d.y <= i32::MAX,
    {
        Location { x: (self.x - d.x) as i32, y: (self.y - d.y) as i32 }
    }

    /// The quarter turn of a direction: `(x, y)` becomes `(-y, x)`.
    pub open spec fn quarter_turn(self) -> Location
        recommends
            self.y > i32::MIN,
    {
        Location { x: (-self.y) as i32, y: self.x }
    }

    /// The squared Euclidean distance between two coordinates, in exact arithmetic.
    pub open spec fn distance_squared_to(self, other: Location) -> int {
        (self.x - other.x) * (self.x - other.x) + (self.y - other.y) * (self.y - other.y)
    }

    /// Whether the two coordinates are one axis-aligned step apart.
    pub open spec fn adjacent(self, other: Location) -> bool {
        self.distance_squared_to(other) == 1
    }

    /// Whether `self` is one of the four axis-aligned unit directions.
    pub open spec fn is_unit(self) -> bool {
        ||| self == (Location { x: 1, y: 0 })
        ||| self == (Location { x: -1i32, y: 0 })
        ||| self == (Location { x: 0, y: 1 })
        ||| self == (Location { x: 0, y: -1i32 })
    }

    /// Squared Euclidean distance, exact for every pair of coordinates.
    pub fn distance_squared(&self, other: &Location) -> (r: u128)
        ensures
            r == self.distance_squared_to(*other),
    {
        let dx: u128 = gap(self.x, other.x) as u128;
        let dy: u128 = gap(self.y, other.y) as u128;
        assert(dx * dx <= 0xffff_ffff * 0xffff_ffff) by (nonlinear_arith)
            requires
                0 <= dx <= 0xffff_ffff,
        ;
        assert(dy * dy <= 0xffff_ffff * 0xffff_ffff) by (nonlinear_arith)
            requires
                0 <= dy <= 0xffff_ffff,
        ;
        assert(dx * dx == (self.x - other.x) * (self.x - other.x)) by (nonlinear_arith)
            requires
                dx == self.x - other.x || dx == other.x - self.x,
        ;
        assert(dy * dy == (self.y - other.y) * (self.y - other.y)) by (nonlinear_arith)
            requires
                dy == self.y - other.y || dy == other.y - self.y,
        ;
        dx * dx + dy * dy
    }
}

} // verus!
