//! Shapes that restrict which cells a search may visit.

use vstd::prelude::*;
use crate::cords::location_within;
use crate::cords::within_box;
use crate::location::Location;
use crate::random::RandomSource;

verus! {

/// A region of the plane, used to bound a search.
#[derive(Clone, Copy, Debug)]
pub enum Shape {
    /// Every coordinate.
    All,
    /// The coordinates whose squared distance to the centre is at most the radius squared.
    Circle(Location, u32),
    /// The coordinates from the first corner (inclusive) to the second (exclusive).
    Square(Location, Location),
}

impl Shape {
    /// Membership of a coordinate in the shape.
    pub open spec fn holds(self, location: Location) -> bool {
        match self {
            Shape::All => true,
            Shape::Circle(center, radius) => center.distance_squared_to(location) <= radius
                * radius,
            Shape::Square(start, end) => within_box(start, end, location),
        }
    }

    /// Whether `location` belongs to the shape.
    pub fn contains(&self, location: &Location) -> (r: bool)
        ensures
            r == self.holds(*location),
    {
        match self {
            Shape::All => true,
            Shape::Circle(center, radius) => {
                let reach: u128 = *radius as u128;
                assert(reach * reach <= 0xffff_ffff * 0xffff_ffff) by (nonlinear_arith)
                    requires
                        0 <= reach <= 0xffff_ffff,
                ;
                center.distance_squared(location) <= reach * reach
            },
            Shape::Square(start, end) => location_within(start, end, location),
        }
    }
}

/// The remainder of `value` on division by `width`, counted from 0 upwards.
pub fn wrap_into(value: i32, width: i32) -> (r: i32)
    requires
        width > 0,
    ensures
        r == (value as int) % (width as int),
        0 <= r < width,
{
    let modulus: u64 = width as u64;
    let raised: u64 = (value as i64 + 0x8000_0000i64) as u64;
    let a: u64 = raised % modulus;
    let b: u64 = 0x8000_0000u64 % modulus;
    let r: u64 = (a + modulus - b) % modulus;
    proof {
        let m = width as int;
        let lifted = value as int + 0x8000_0000int;
        vstd::arithmetic::div_mod::lemma_sub_mod_noop(lifted, 0x8000_0000int, m);
        vstd::arithmetic::div_mod::lemma_mod_add_multiples_vanish(a as int - b as int, m);
        vstd::arithmetic::div_mod::lemma_mod_bound(value as int, m);
    }
    r as i32
}

/// The coordinate of the box from `start` to `end` that the two numbers `a` and `b` stand
/// for: each is wrapped into the extent of the box along its axis and counted from `start`.
pub open spec fn boxed(start: Location, end: Location, a: i32, b: i32) -> Location {
    Location {
        x: (start.x + (a as int) % (end.x - start.x)) as i32,
        y: (start.y + (b as int) % (end.y - start.y)) as i32,
    }
}

/// A coordinate of the box from `start` (inclusive) to `end` (exclusive), picked at random:
/// two numbers are drawn from `source` and wrapped into the box.
pub fn random_in_box(start: &Location, end: &Location, source: &mut RandomSource) -> (r: Location)
    requires
        start.x < end.x,
        start.y < end.y,
        end.x - start.x <= i32::MAX,
        end.y - start.y <= i32::MAX,
    ensures
        within_box(*start, *end, r),
        exists|a: i32, b: i32| r == #[trigger] boxed(*start, *end, a, b),
{
    let a: i32 = source.random();
    let b: i32 = source.random();
    let x: i32 = wrap_into(a, end.x - start.x) + start.x;
    let y: i32 = wrap_into(b, end.y - start.y) + start.y;
    assert(Location { x, y } == boxed(*start, *end, a, b));
    Location { x, y }
}

} // verus!
