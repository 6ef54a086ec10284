//! A fixed-size two-dimensional grid that holds at most one value per cell.

use vstd::prelude::*;
use crate::astar::a_star;
use crate::astar::answers;
use crate::astar::planned;
use crate::breadth::breadth_first;
use crate::breadth::cell_count;
use crate::breadth::BreadthFirst;
use crate::cords::area;
use crate::cords::cell_index;
use crate::cords::cell_location;
use crate::cords::index_to_location;
use crate::cords::lemma_cell_index_bounds;
use crate::cords::magnitude;
use crate::cords::lemma_index_of_location;
use crate::cords::location_to_index;
use crate::cords::location_within;
use crate::cords::on_grid;
use crate::location::Location;
use crate::selection::Shape;

verus! {

/// What a grid of values is: its size and its cells in row-major order.
pub struct CellsView<T> {
    pub size: Location,
    pub cells: Seq<Option<T>>,
}

impl<T> CellsView<T> {
    /// The size is non-negative, there is one cell per coordinate, and the area fits in `i32`.
    pub open spec fn valid(self) -> bool {
        &&& 0 <= self.size.x
        &&& 0 <= self.size.y
        &&& self.cells.len() == area(self.size)
        &&& area(self.size) <= i32::MAX
    }

    /// The value at `location`; `None` where the cell is empty or the coordinate lies off the
    /// grid.
    pub open spec fn at(self, location: Location) -> Option<T> {
        if on_grid(self.size, location) {
            self.cells[cell_index(self.size, location)]
        } else {
            None
        }
    }

    /// The grid with the cell at `location` holding `cell`.
    pub open spec fn with(self, location: Location, cell: Option<T>) -> CellsView<T> {
        CellsView { size: self.size, cells: self.cells.update(cell_index(self.size, location), cell) }
    }
}

/// A cell as a predicate over cells is handed it: a reference to the value, or `None`.
pub open spec fn borrowed<T>(cell: &Option<T>) -> Option<&T> {
    match cell {
        Some(value) => Some(value),
        None => None,
    }
}

/// The positions from `from` up to `to`, in order.
pub open spec fn span(from: int, to: int) -> Seq<usize> {
    Seq::new(
        if from < to {
            (to - from) as nat
        } else {
            0
        },
        |i: int| (from + i) as usize,
    )
}

/// Every position of `len` cells, starting at `index` and wrapping round: those from `index`
/// to the end, then those below `index`.
pub open spec fn wrapped(len: int, index: int) -> Seq<usize> {
    span(index, len) + span(0, index)
}

/// The positions of the cells of row `y` from column `x0` up to column `x1`.
pub open spec fn row(size: Location, y: int, x0: int, x1: int) -> Seq<usize> {
    Seq::new(
        if x0 < x1 {
            (x1 - x0) as nat
        } else {
            0
        },
        |i: int| (y * size.x + x0 + i) as usize,
    )
}

/// The positions of the cells of the rows `y0` up to `y1`, each from column `x0` up to column
/// `x1`, row after row.
pub open spec fn block(size: Location, x0: int, x1: int, y0: int, y1: int) -> Seq<usize>
    decreases y1 - y0,
{
    if y0 >= y1 {
        Seq::empty()
    } else {
        block(size, x0, x1, y0, y1 - 1) + row(size, y1 - 1, x0, x1)
    }
}

/// The larger of two numbers.
pub open spec fn larger(a: int, b: int) -> int {
    if a >= b {
        a
    } else {
        b
    }
}

/// The smaller of two numbers.
pub open spec fn smaller(a: int, b: int) -> int {
    if a <= b {
        a
    } else {
        b
    }
}

/// The first position of `order`, from place `from` on, whose cell is empty.
pub open spec fn first_empty<T>(cells: Seq<Option<T>>, order: Seq<usize>, from: int) -> Option<usize>
    decreases order.len() - from,
{
    if from < 0 || from >= order.len() {
        None
    } else if cells[order[from] as int] is None {
        Some(order[from])
    } else {
        first_empty(cells, order, from + 1)
    }
}

/// Whether `open` records, cell by cell, an answer that `predicate` may give for that cell.
pub open spec fn judged<T, F: Fn(Option<&T>) -> bool>(cells: Seq<Option<T>>, predicate: F, open: Seq<bool>) -> bool {
    &&& open.len() == cells.len()
    &&& forall|i: int|
        0 <= i < cells.len() ==> call_ensures(predicate, (borrowed(&cells[i]),), #[trigger] open[i])
}

/// Whether `found` is what a search along `order` for a cell that `predicate` accepts may
/// return: the coordinate of the first accepted cell, every cell before it being refused; or
/// `None` where every cell is refused.
pub open spec fn found_along<T, F: Fn(Option<&T>) -> bool>(
    grid: CellsView<T>,
    order: Seq<usize>,
    predicate: F,
    found: Option<Location>,
) -> bool {
    match found {
        Some(location) => exists|k: int|
            0 <= k < order.len() && location == cell_location(grid.size, #[trigger] order[k] as int)
                && call_ensures(predicate, (borrowed(&grid.cells[order[k] as int]),), true)
                && forall|j: int|
                0 <= j < k ==> call_ensures(
                    predicate,
                    (borrowed(&grid.cells[#[trigger] order[j] as int]),),
                    false,
                ),
        None => forall|j: int|
            0 <= j < order.len() ==> call_ensures(
                predicate,
                (borrowed(&grid.cells[#[trigger] order[j] as int]),),
                false,
            ),
    }
}

/// `rand::random_range(..len)`: a position drawn from the thread's random number generator.
/// Not proved, taken from its documentation: the position lies below `len`. It panics on an
/// empty range, which `requires` leaves out.
#[verifier::external_body]
fn random_below(len: usize) -> (r: usize)
    requires
        len > 0,
    ensures
        r < len,
{
    rand::random_range(..len)
}

/// The positions from `from` up to `to`, appended to `out`.
fn push_span(out: &mut Vec<usize>, from: usize, to: usize)
    ensures
        final(out)@ == old(out)@ + span(from as int, to as int),
{
    let mut i: usize = from;
    while i < to
        invariant
            from <= i,
            i <= to || i == from,
            out@ == old(out)@ + span(from as int, i as int),
        decreases to - i,
    {
        out.push(i);
        i = i + 1;
    }
}

/// A fixed-size grid of optional values.
#[derive(Clone, Debug)]
pub struct Grid<T> {
    size: Location,
    data: Vec<Option<T>>,
}

impl<T> View for Grid<T> {
    type V = CellsView<T>;

    closed spec fn view(&self) -> CellsView<T> {
        CellsView { size: self.size, cells: self.data@ }
    }
}

impl<T> Grid<T> {
    /// The grid is consistent.
    pub open spec fn well_formed(&self) -> bool {
        self@.valid()
    }

    /// An empty grid. A negative component of `size` counts by its absolute value.
    pub fn new(size: Location) -> (r: Grid<T>)
        requires
            size.x > i32::MIN,
            size.y > i32::MIN,
            magnitude(size.x) * magnitude(size.y) <= i32::MAX,
        ensures
            r.well_formed(),
            r@.size.x == magnitude(size.x),
            r@.size.y == magnitude(size.y),
            forall|i: int| 0 <= i < r@.cells.len() ==> r@.cells[i] is None,
    {
        let width: i32 = if size.x < 0 {
            -size.x
        } else {
            size.x
        };
        let height: i32 = if size.y < 0 {
            -size.y
        } else {
            size.y
        };
        let size = Location { x: width, y: height };
        let count: usize = cell_count(&size);
        let mut data: Vec<Option<T>> = Vec::new();
        while data.len() < count
            invariant
                data.len() <= count,
                forall|i: int| 0 <= i < data.len() ==> data[i] is None,
            decreases count - data.len(),
        {
            data.push(None);
        }
        Grid { size, data }
    }

    /// Whether `location` lies on the grid.
    pub fn within(&self, location: &Location) -> (r: bool)
        requires
            self.well_formed(),
        ensures
            r == on_grid(self@.size, *location),
    {
        self.index(location).is_some()
    }

    /// The size of the grid.
    pub fn size(&self) -> (r: Location)
        ensures
            r == self@.size,
    {
        self.size
    }

    /// The value at `location`; `None` where the cell is empty or the coordinate lies off the
    /// grid.
    pub fn get(&self, location: &Location) -> (r: Option<&T>)
        requires
            self.well_formed(),
        ensures
            match r {
                Some(value) => self@.at(*location) == Some(*value),
                None => self@.at(*location) is None,
            },
    {
        match self.index(location) {
            Some(index) => self.data[index].as_ref(),
            None => None,
        }
    }

    /// A reference through which the value at `location` can be changed; `None` where the cell
    /// is empty or the coordinate lies off the grid. The grid ends as it was, but for the cell
    /// at `location`, which holds what the reference holds in the end.
    pub fn get_mut(&mut self, location: &Location) -> (r: Option<&mut T>)
        requires
            old(self).well_formed(),
        ensures
            final(self).well_formed(),
            final(self)@.size == old(self)@.size,
            match r {
                Some(value) => old(self)@.at(*location) == Some(*value) && final(self)@.cells == old(
                    self,
                )@.cells.update(cell_index(old(self)@.size, *location), Some(*final(value))),
                None => old(self)@.at(*location) is None && final(self)@.cells == old(self)@.cells,
            },
    {
        match self.index(location) {
            Some(index) => self.data[index].as_mut(),
            None => None,
        }
    }

    /// Stores `value` at `location`, replacing what was there, and returns a reference to it;
    /// `None`, with nothing changed, where the coordinate lies off the grid.
    pub fn set(&mut self, location: &Location, value: T) -> (r: Option<&T>)
        requires
            old(self).well_formed(),
        ensures
            final(self).well_formed(),
            on_grid(old(self)@.size, *location) ==> r == Some(&value) && final(self)@ == old(self)@.with(
                *location,
                Some(value),
            ),
            !on_grid(old(self)@.size, *location) ==> r is None && final(self)@ == old(self)@,
    {
        match self.index(location) {
            Some(index) => {
                self.data.set(index, Some(value));
                self.data[index].as_ref()
            },
            None => None,
        }
    }

    /// Empties the cell at `location` and returns what it held; `None` where the cell was empty
    /// or the coordinate lies off the grid.
    pub fn take(&mut self, location: &Location) -> (r: Option<T>)
        requires
            old(self).well_formed(),
        ensures
            final(self).well_formed(),
            r == old(self)@.at(*location),
            on_grid(old(self)@.size, *location) ==> final(self)@ == old(self)@.with(*location, None),
            !on_grid(old(self)@.size, *location) ==> final(self)@ == old(self)@,
    {
        match self.index(location) {
            Some(index) => self.data[index].take(),
            None => None,
        }
    }

    /// Stores `value` in the first empty cell, trying the positions from `start` to the end
    /// and then those below `start`, and returns the coordinate of that cell; `None`, with
    /// nothing changed, where every cell is taken.
    pub fn place_from(&mut self, start: usize, value: T) -> (r: Option<Location>)
        requires
            old(self).well_formed(),
            start < old(self)@.cells.len(),
        ensures
            final(self).well_formed(),
            ({
                let slot = first_empty(
                    old(self)@.cells,
                    wrapped(old(self)@.cells.len() as int, start as int),
                    0,
                );
                match slot {
                    Some(index) => r == Some(cell_location(old(self)@.size, index as int))
                        && final(self)@ == (CellsView {
                        size: old(self)@.size,
                        cells: old(self)@.cells.update(index as int, Some(value)),
                    }),
                    None => r is None && final(self)@ == old(self)@,
                }
            }),
            r is None <==> forall|i: int| 0 <= i < old(self)@.cells.len() ==> old(self)@.cells[i] is Some,
    {
        let order = self.iter_from_index(start);
        let ghost cells = self@.cells;
        let mut k: usize = 0;
        while k < order.len()
            invariant
                self.well_formed(),
                self@.cells == cells,
                *self == *old(self),
                k <= order.len(),
                order@ == wrapped(cells.len() as int, start as int),
                start < cells.len(),
                first_empty(cells, order@, 0) == first_empty(cells, order@, k as int),
                forall|j: int| 0 <= j < k ==> cells[#[trigger] order@[j] as int] is Some,
            decreases order.len() - k,
        {
            let index: usize = order[k];
            if self.data[index].is_none() {
                self.data.set(index, Some(value));
                proof {
                    lemma_index_of_location(self.size, index as int);
                }
                return Some(index_to_location(&self.size, index));
            }
            k = k + 1;
        }
        proof {
            assert forall|i: int| 0 <= i < cells.len() implies cells[i] is Some by {
                if i >= start {
                    assert(order@[i - start] == i);
                } else {
                    assert(order@[cells.len() - start + i] == i);
                }
            }
        }
        None
    }

    /// Stores `value` in an empty cell picked at random: the first empty one found from a
    /// random position on, wrapping round. Returns the coordinate of the cell; `None`, with
    /// nothing changed, where every cell is taken.
    pub fn random(&mut self, value: T) -> (r: Option<Location>)
        requires
            old(self).well_formed(),
            old(self)@.cells.len() > 0,
        ensures
            final(self).well_formed(),
            exists|start: int|
                0 <= start < old(self)@.cells.len() && match #[trigger] first_empty(
                    old(self)@.cells,
                    wrapped(old(self)@.cells.len() as int, start),
                    0,
                ) {
                    Some(index) => r == Some(cell_location(old(self)@.size, index as int))
                        && final(self)@ == (CellsView {
                        size: old(self)@.size,
                        cells: old(self)@.cells.update(index as int, Some(value)),
                    }),
                    None => r is None && final(self)@ == old(self)@,
                },
            r is None <==> forall|i: int| 0 <= i < old(self)@.cells.len() ==> old(self)@.cells[i] is Some,
    {
        let start = random_below(self.data.len());
        self.place_from(start, value)
    }

    /// The coordinate of the first cell along `order` that `predicate` accepts.
    pub fn find<F: Fn(Option<&T>) -> bool>(&self, order: &Vec<usize>, predicate: F) -> (r: Option<Location>)
        requires
            self.well_formed(),
            forall|k: int| 0 <= k < order@.len() ==> #[trigger] order@[k] < self@.cells.len(),
            forall|cell: Option<&T>| call_requires(predicate, (cell,)),
        ensures
            found_along(self@, order@, predicate, r),
    {
        let mut k: usize = 0;
        while k < order.len()
            invariant
                self.well_formed(),
                k <= order.len(),
                forall|k: int| 0 <= k < order@.len() ==> #[trigger] order@[k] < self@.cells.len(),
                forall|cell: Option<&T>| call_requires(predicate, (cell,)),
                forall|j: int|
                    0 <= j < k ==> call_ensures(
                        predicate,
                        (borrowed(&self@.cells[#[trigger] order@[j] as int]),),
                        false,
                    ),
            decreases order.len() - k,
        {
            let index: usize = order[k];
            let cell = self.data[index].as_ref();
            if predicate(cell) {
                proof {
                    lemma_index_of_location(self.size, index as int);
                }
                return Some(index_to_location(&self.size, index));
            }
            k = k + 1;
        }
        None
    }

    /// For every cell in row-major order, what `predicate` says of it.
    pub fn judge<F: Fn(Option<&T>) -> bool>(&self, predicate: F) -> (r: Vec<bool>)
        requires
            self.well_formed(),
            forall|cell: Option<&T>| call_requires(predicate, (cell,)),
        ensures
            judged(self@.cells, predicate, r@),
    {
        let mut open: Vec<bool> = Vec::new();
        let mut i: usize = 0;
        while i < self.data.len()
            invariant
                i <= self.data.len(),
                open.len() == i,
                forall|cell: Option<&T>| call_requires(predicate, (cell,)),
                forall|j: int|
                    0 <= j < i ==> call_ensures(
                        predicate,
                        (borrowed(&self@.cells[j]),),
                        #[trigger] open@[j],
                    ),
            decreases self.data.len() - i,
        {
            let cell = self.data[i].as_ref();
            let verdict = predicate(cell);
            open.push(verdict);
            i = i + 1;
        }
        open
    }

    /// The route from `start` to `end`, every cell from `start` to `end` inclusive, or the
    /// empty route where `end` cannot be reached. A step may enter a cell on the grid that
    /// `predicate` accepts, and may enter `end` whatever it holds.
    pub fn a_star<F: Fn(Option<&T>) -> bool>(&self, start: &Location, end: &Location, predicate: F) -> (r:
        Vec<Location>)
        requires
            self.well_formed(),
            forall|cell: Option<&T>| call_requires(predicate, (cell,)),
        ensures
            exists|open: Seq<bool>|
                judged(self@.cells, predicate, open) && r@ == #[trigger] planned(
                    self@.size,
                    open,
                    *start,
                    *end,
                ) && answers(self@.size, open, *start, *end, r@),
    {
        let open = self.judge(predicate);
        a_star(&self.size, &open, start, end)
    }

    /// Every position, in row-major order.
    pub fn iter_entire_grid(&self) -> (r: Vec<usize>)
        ensures
            r@ == span(0, self@.cells.len() as int),
    {
        let mut out: Vec<usize> = Vec::new();
        push_span(&mut out, 0, self.data.len());
        out
    }

    /// The positions from `index` to the end, then those below `index`.
    pub fn iter_from_index(&self, index: usize) -> (r: Vec<usize>)
        ensures
            r@ == wrapped(self@.cells.len() as int, index as int),
    {
        let mut out: Vec<usize> = Vec::new();
        push_span(&mut out, index, self.data.len());
        push_span(&mut out, 0, index);
        out
    }

    /// The positions of the cells of the grid that lie in the box from `start` (inclusive) to
    /// `end` (exclusive), row after row.
    pub fn iter_square(&self, start: &Location, end: &Location) -> (r: Vec<usize>)
        requires
            self.well_formed(),
        ensures
            r@ == block(
                self@.size,
                larger(start.x as int, 0),
                smaller(end.x as int, self@.size.x as int),
                larger(start.y as int, 0),
                smaller(end.y as int, self@.size.y as int),
            ),
    {
        let x0: i32 = if start.x > 0 {
            start.x
        } else {
            0
        };
        let x1: i32 = if end.x < self.size.x {
            end.x
        } else {
            self.size.x
        };
        let y0: i32 = if start.y > 0 {
            start.y
        } else {
            0
        };
        let y1: i32 = if end.y < self.size.y {
            end.y
        } else {
            self.size.y
        };
        let mut out: Vec<usize> = Vec::new();
        let mut y: i32 = y0;
        while y < y1
            invariant
                self.well_formed(),
                0 <= y0 <= y,
                y <= y1 || y == y0,
                y1 <= self.size.y,
                0 <= x0,
                x1 <= self.size.x,
                out@ == block(self@.size, x0 as int, x1 as int, y0 as int, y as int),
            decreases y1 - y,
        {
            let mut x: i32 = x0;
            let ghost before = out@;
            while x < x1
                invariant
                    self.well_formed(),
                    0 <= y < self.size.y,
                    0 <= x0 <= x,
                    x <= x1 || x == x0,
                    x1 <= self.size.x,
                    out@ == before + row(self@.size, y as int, x0 as int, x as int),
                decreases x1 - x,
            {
                let here = Location { x, y };
                proof {
                    lemma_cell_index_bounds(self.size, here);
                }
                let index: usize = location_to_index(&self.size, &here);
                out.push(index);
                x = x + 1;
            }
            y = y + 1;
        }
        out
    }

    /// The positions of the cells of the grid that lie in the box at `start` of the given
    /// extent, row after row.
    pub fn iter_square_size(&self, start: &Location, size: &Location) -> (r: Vec<usize>)
        requires
            self.well_formed(),
            i32::MIN <= start.x + size.x <= i32::MAX,
            i32::MIN <= start.y + size.y <= i32::MAX,
        ensures
            r@ == block(
                self@.size,
                larger(start.x as int, 0),
                smaller(start.x + size.x, self@.size.x as int),
                larger(start.y as int, 0),
                smaller(start.y + size.y, self@.size.y as int),
            ),
    {
        let end = Location { x: start.x + size.x, y: start.y + size.y };
        self.iter_square(start, &end)
    }

    /// A breadth-first traversal from `start`, biased along `direction`, over the whole grid.
    pub fn iter_breath_first(&self, start: &Location, direction: &Location) -> (r: BreadthFirst)
        requires
            self.well_formed(),
        ensures
            r.well_formed(),
            r.extent() == self@.size,
            r.remaining() == breadth_first(self@.size, *start, *direction, Shape::All),
    {
        BreadthFirst::new(self.size, *start, *direction, Shape::All)
    }

    /// A breadth-first traversal from `start`, biased along `direction`, over the cells of the
    /// grid that lie in `selection`.
    pub fn iter(&self, start: &Location, direction: &Location, selection: Shape) -> (r: BreadthFirst)
        requires
            self.well_formed(),
        ensures
            r.well_formed(),
            r.extent() == self@.size,
            r.remaining() == breadth_first(self@.size, *start, *direction, selection),
    {
        BreadthFirst::new(self.size, *start, *direction, selection)
    }

    /// The position of `location` in the cell array, where it lies on the grid.
    fn index(&self, location: &Location) -> (r: Option<usize>)
        requires
            self.well_formed(),
        ensures
            r is Some <==> on_grid(self@.size, *location),
            r matches Some(i) ==> i == cell_index(self@.size, *location) && i < self.data@.len(),
    {
        let origin = Location::zero();
        if location_within(&origin, &self.size, location) {
            proof {
                lemma_cell_index_bounds(self.size, *location);
            }
            Some(location_to_index(&self.size, location))
        } else {
            None
        }
    }
}

} // verus!
