//! Conversions between grid coordinates and positions in a row-major cell array.

use vstd::prelude::*;
use vstd::arithmetic::div_mod::lemma_fundamental_div_mod_converse;
use vstd::arithmetic::div_mod::lemma_fundamental_div_mod;
use vstd::arithmetic::div_mod::lemma_mod_bound;
use vstd::arithmetic::mul::lemma_mul_inequality;
use crate::location::Location;

verus! {

/// Whether `location` lies in the half-open box from `start` to `end`.
pub open spec fn within_box(start: Location, end: Location, location: Location) -> bool {
    start.x <= location.x < end.x && start.y <= location.y < end.y
}

/// Whether `location` lies on a grid of the given size.
pub open spec fn on_grid(size: Location, location: Location) -> bool {
    0 <= location.x < size.x && 0 <= location.y < size.y
}

/// The absolute value of a component.
pub open spec fn magnitude(v: i32) -> int {
    if v < 0 {
        -(v as int)
    } else {
        v as int
    }
}

/// The number of cells of a grid of the given size.
pub open spec fn area(size: Location) -> int {
    size.x * size.y
}

/// The row-major position of `location` on a grid `size.x` cells wide.
pub open spec fn cell_index(size: Location, location: Location) -> int {
    location.y * size.x + location.x
}

/// The coordinate of the cell at row-major position `index`.
pub open spec fn cell_location(size: Location, index: int) -> Location
    recommends
        size.x > 0,
        0 <= index,
        index / (size.x as int) <= i32::MAX,
{
    Location { x: (index % (size.x as int)) as i32, y: (index / (size.x as int)) as i32 }
}

/// A coordinate on the grid has a position below the grid's area.
pub proof fn lemma_cell_index_bounds(size: Location, location: Location)
    requires
        on_grid(size, location),
    ensures
        0 <= cell_index(size, location) < area(size),
{
    let w = size.x as int;
    let h = size.y as int;
    let y = location.y as int;
    assert(0 <= y * w) by (nonlinear_arith)
        requires
            0 <= y,
            0 <= w,
    ;
    assert((y + 1) * w <= h * w) by {
        lemma_mul_inequality(y + 1, h, w);
    }
    assert((y + 1) * w == y * w + w) by (nonlinear_arith);
    assert(h * w == w * h) by (nonlinear_arith);
}

/// The coordinate of a cell's position is the cell.
pub proof fn lemma_location_of_index(size: Location, location: Location)
    requires
        on_grid(size, location),
    ensures
        cell_location(size, cell_index(size, location)) == location,
{
    let w = size.x as int;
    lemma_fundamental_div_mod_converse(cell_index(size, location), w, location.y as int, location.x as int);
}

/// Distinct cells on the grid have distinct positions.
pub proof fn lemma_cell_index_injective(size: Location, a: Location, b: Location)
    requires
        on_grid(size, a),
        on_grid(size, b),
        cell_index(size, a) == cell_index(size, b),
    ensures
        a == b,
{
    lemma_location_of_index(size, a);
    lemma_location_of_index(size, b);
}

/// Every position below the area is the position of exactly one cell on the grid.
pub proof fn lemma_index_of_location(size: Location, index: int)
    requires
        0 <= size.x,
        0 <= size.y,
        0 <= index < area(size),
    ensures
        on_grid(size, cell_location(size, index)),
        cell_index(size, cell_location(size, index)) == index,
{
    let w = size.x as int;
    let h = size.y as int;
    assert(w > 0) by (nonlinear_arith)
        requires
            0 <= w,
            0 <= index < w * h,
    ;
    lemma_fundamental_div_mod(index, w);
    lemma_mod_bound(index, w);
    let q = index / w;
    let r = index % w;
    assert(w * q + r == q * w + r) by (nonlinear_arith);
    assert(0 <= q) by (nonlinear_arith)
        requires
            w > 0,
            0 <= index,
            index == w * q + r,
            0 <= r < w,
    ;
    assert(q < h) by (nonlinear_arith)
        requires
            w > 0,
            index < w * h,
            index == w * q + r,
            0 <= r < w,
    ;
}

/// Whether a grid can have the size `size`, each component counted by its absolute value: both
/// absolute values and the area must fit in `i32`.
pub fn magnitude_fits(size: &Location) -> (r: bool)
    ensures
        r == (size.x > i32::MIN && size.y > i32::MIN && magnitude(size.x) * magnitude(size.y)
            <= i32::MAX),
{
    if size.x == i32::MIN || size.y == i32::MIN {
        return false;
    }
    let width: i64 = if size.x < 0 {
        -(size.x as i64)
    } else {
        size.x as i64
    };
    let height: i64 = if size.y < 0 {
        -(size.y as i64)
    } else {
        size.y as i64
    };
    assert(0 <= width * height <= 0x7fff_ffff * 0x7fff_ffff) by (nonlinear_arith)
        requires
            0 <= width <= 0x7fff_ffff,
            0 <= height <= 0x7fff_ffff,
    ;
    width * height <= i32::MAX as i64
}

/// Whether `location` lies in the half-open box from `start` (inclusive) to `end` (exclusive).
pub fn location_within(start: &Location, end: &Location, location: &Location) -> (r: bool)
    ensures
        r == within_box(*start, *end, *location),
{
    location.x >= start.x && location.x < end.x && location.y >= start.y && location.y < end.y
}

/// The row-major position of a cell that lies on the grid.
pub fn location_to_index(size: &Location, location: &Location) -> (r: usize)
    requires
        on_grid(*size, *location),
        area(*size) <= usize::MAX,
    ensures
        r == cell_index(*size, *location),
        r < area(*size),
{
    proof {
        lemma_cell_index_bounds(*size, *location);
        let y = location.y as int;
        let w = size.x as int;
        assert(0 <= y * w) by (nonlinear_arith)
            requires
                0 <= y,
                0 <= w,
        ;
    }
    (location.y as usize) * (size.x as usize) + (location.x as usize)
}

/// The coordinate of the cell at row-major position `index` on a grid `size.x` cells wide.
pub fn index_to_location(size: &Location, index: usize) -> (r: Location)
    requires
        size.x > 0,
        index / (size.x as usize) <= i32::MAX,
    ensures
        r == cell_location(*size, index as int),
        r.x == index % (size.x as usize),
        r.y == index / (size.x as usize),
{
    let width: usize = size.x as usize;
    proof {
        lemma_mod_bound(index as int, width as int);
    }
    Location { x: (index % width) as i32, y: (index / width) as i32 }
}

} // verus!
