//! The occupancy grid: for every cell and every entity kind, at most one occupant.

use vstd::prelude::*;
use crate::astar::a_star;
use crate::astar::answers;
use crate::astar::is_walk;
use crate::astar::lemma_limited_route;
use crate::astar::lemma_stops_short;
use crate::astar::lemma_walk_length;
use crate::astar::limit_steps;
use crate::astar::limited;
use crate::astar::manhattan;
use crate::astar::planned;
use crate::astar::short_of;
use crate::astar::stop_before;
use crate::breadth::breadth_first;
use crate::breadth::cell_count;
use crate::breadth::BreadthFirst;
use crate::cords::cell_location;
use crate::cords::index_to_location;
use crate::cords::lemma_index_of_location;
use crate::cords::lemma_location_of_index;
use crate::selection::Shape;
use crate::cords::area;
use crate::cords::cell_index;
use crate::cords::lemma_cell_index_bounds;
use crate::cords::magnitude;
use crate::cords::lemma_cell_index_injective;
use crate::cords::location_to_index;
use crate::cords::location_within;
use crate::cords::on_grid;
use crate::location::Location;

verus! {

/// An opaque handle to an object that lives outside the grid. The grid stores handles and never
/// interprets them.
#[derive(Clone, Copy, Debug, PartialEq, Eq, Structural, Hash)]
pub struct Entity {
    pub bits: u64,
}

impl Entity {
    /// The handle with the given identifier.
    pub fn from_bits(bits: u64) -> (r: Entity)
        ensures
            r == (Entity { bits }),
    {
        Entity { bits }
    }

    /// The identifier of the handle.
    pub fn to_bits(&self) -> (r: u64)
        ensures
            r == self.bits,
    {
        self.bits
    }
}

/// One cell: a slot for a unit and a slot for a tile, filled independently.
#[derive(Clone, Copy, Debug, PartialEq, Eq, Structural)]
pub struct Space {
    pub unit: Option<Entity>,
    pub tile: Option<Entity>,
}

impl Default for Space {
    fn default() -> (r: Space)
        ensures
            r == (Space { unit: None, tile: None }),
    {
        Space { unit: None, tile: None }
    }
}

/// The channel of a cell that an operation addresses.
#[derive(Clone, Copy, Debug, PartialEq, Eq, Structural, Hash)]
pub enum EntityKind {
    Unit,
    Tile,
}

impl EntityKind {
    /// The occupant of this kind's slot in `space`.
    pub open spec fn of(self, space: Space) -> Option<Entity> {
        match self {
            EntityKind::Unit => space.unit,
            EntityKind::Tile => space.tile,
        }
    }

    /// `space` with this kind's slot holding `occupant`, the other slot as it was.
    pub open spec fn with(self, space: Space, occupant: Option<Entity>) -> Space {
        match self {
            EntityKind::Unit => Space { unit: occupant, tile: space.tile },
            EntityKind::Tile => Space { unit: space.unit, tile: occupant },
        }
    }

    /// Stores `entity` in this kind's slot of `space`, replacing what was there.
    pub fn set(&self, space: &mut Space, entity: Entity)
        ensures
            *final(space) == self.with(*old(space), Some(entity)),
    {
        match self {
            EntityKind::Unit => {
                space.unit = Some(entity);
            },
            EntityKind::Tile => {
                space.tile = Some(entity);
            },
        }
    }

    /// The occupant of this kind's slot of `space`.
    pub fn get(&self, space: &Space) -> (r: Option<Entity>)
        ensures
            r == self.of(*space),
    {
        match self {
            EntityKind::Unit => space.unit,
            EntityKind::Tile => space.tile,
        }
    }

    /// Empties this kind's slot of `space` and returns what it held.
    pub fn take(&self, space: &mut Space) -> (r: Option<Entity>)
        ensures
            r == self.of(*old(space)),
            *final(space) == self.with(*old(space), None),
    {
        match self {
            EntityKind::Unit => {
                let held = space.unit;
                space.unit = None;
                held
            },
            EntityKind::Tile => {
                let held = space.tile;
                space.tile = None;
                held
            },
        }
    }
}

/// Where an occupant stands: its cell and its kind.
#[derive(Clone, Copy, Debug, PartialEq, Eq, Structural)]
pub struct GridLocation {
    pub location: Location,
    pub kind: EntityKind,
}

impl GridLocation {
    /// The record for an occupant of `kind` at `location`.
    pub fn new(location: Location, kind: EntityKind) -> (r: GridLocation)
        ensures
            r == (GridLocation { location, kind }),
    {
        GridLocation { location, kind }
    }

    /// The cell.
    pub fn location(&self) -> (r: &Location)
        ensures
            *r == self.location,
    {
        &self.location
    }

    /// The kind.
    pub fn kind(&self) -> (r: &EntityKind)
        ensures
            *r == self.kind,
    {
        &self.kind
    }
}

/// What a grid is: its size and, for each occupied slot, the occupant.
pub struct GridView {
    pub size: Location,
    pub occupants: Map<(EntityKind, Location), Entity>,
}

impl GridView {
    /// The size is non-negative, the area fits in `i32`, and every occupied slot lies on the
    /// grid.
    pub open spec fn valid(self) -> bool {
        &&& 0 <= self.size.x
        &&& 0 <= self.size.y
        &&& area(self.size) <= i32::MAX
        &&& forall|key: (EntityKind, Location)| #[trigger]
            self.occupants.contains_key(key) ==> on_grid(self.size, key.1)
    }

    /// The occupant of the `kind` slot at `location`, if there is one.
    pub open spec fn occupant(self, kind: EntityKind, location: Location) -> Option<Entity> {
        if self.occupants.contains_key((kind, location)) {
            Some(self.occupants[(kind, location)])
        } else {
            None
        }
    }

    /// Whether `entity` could be placed in the `kind` slot at `location`: the cell lies on the
    /// grid and the slot is empty.
    pub open spec fn vacant(self, kind: EntityKind, location: Location) -> bool {
        on_grid(self.size, location) && !self.occupants.contains_key((kind, location))
    }

    /// The grid with `entity` in the `kind` slot at `location`.
    pub open spec fn place(self, kind: EntityKind, location: Location, entity: Entity) -> GridView {
        GridView { size: self.size, occupants: self.occupants.insert((kind, location), entity) }
    }

    /// The grid with the `kind` slot at `location` empty.
    pub open spec fn clear(self, kind: EntityKind, location: Location) -> GridView {
        GridView { size: self.size, occupants: self.occupants.remove((kind, location)) }
    }

    /// Whether the `kind` occupant at `from` can be moved to `to`: there is one, and `to` is
    /// vacant.
    pub open spec fn can_move(self, kind: EntityKind, from: Location, to: Location) -> bool {
        self.occupants.contains_key((kind, from)) && self.vacant(kind, to)
    }

    /// The grid with the `kind` occupant at `from` standing at `to` instead.
    pub open spec fn relocate(self, kind: EntityKind, from: Location, to: Location) -> GridView {
        self.clear(kind, from).place(kind, to, self.occupants[(kind, from)])
    }

    /// For every cell in row-major order, whether its `kind` slot is empty.
    pub open spec fn open_cells(self, kind: EntityKind) -> Seq<bool> {
        Seq::new(
            area(self.size) as nat,
            |i: int| !self.occupants.contains_key((kind, cell_location(self.size, i))),
        )
    }

    /// The route that a search for `kind` finds from `from` to `to`, cut down to `steps` moves.
    pub open spec fn route_to(self, kind: EntityKind, from: Location, to: Location, steps: nat) -> Seq<
        Location,
    > {
        limited(planned(self.size, self.open_cells(kind), from, to), steps)
    }

    /// The route of `route_to` that stops before `to`.
    pub open spec fn route_next_to(self, kind: EntityKind, from: Location, to: Location, steps: nat) -> Seq<
        Location,
    > {
        short_of(self.route_to(kind, from, to, steps), to)
    }

    /// Whether the `kind` slot at `location` is empty.
    pub open spec fn unoccupied(self, kind: EntityKind, location: Location) -> bool {
        !self.occupants.contains_key((kind, location))
    }
}

/// The first of `cells`, from position `from` on, whose `kind` slot on `grid` is empty.
pub open spec fn first_unoccupied(
    grid: GridView,
    kind: EntityKind,
    cells: Seq<Location>,
    from: int,
) -> Option<Location>
    decreases cells.len() - from,
{
    if from < 0 || from >= cells.len() {
        None
    } else if grid.unoccupied(kind, cells[from]) {
        Some(cells[from])
    } else {
        first_unoccupied(grid, kind, cells, from + 1)
    }
}

/// Whether the `kind` slot at `location` holds an occupant that `predicate` may accept.
pub open spec fn accepted<F: Fn(&Entity) -> bool>(
    grid: GridView,
    kind: EntityKind,
    predicate: F,
    location: Location,
) -> bool {
    grid.occupants.contains_key((kind, location)) && call_ensures(
        predicate,
        (&grid.occupants[(kind, location)],),
        true,
    )
}

/// Whether the `kind` slot at `location` is empty or holds an occupant that `predicate` may
/// refuse.
pub open spec fn refused<F: Fn(&Entity) -> bool>(
    grid: GridView,
    kind: EntityKind,
    predicate: F,
    location: Location,
) -> bool {
    grid.occupants.contains_key((kind, location)) ==> call_ensures(
        predicate,
        (&grid.occupants[(kind, location)],),
        false,
    )
}

/// A fixed-size two-dimensional grid of cells.
#[derive(Clone, Debug)]
pub struct Grid {
    size: Location,
    data: Vec<Space>,
}

impl View for Grid {
    type V = GridView;

    closed spec fn view(&self) -> GridView {
        GridView {
            size: self.size,
            occupants: Map::new(
                |key: (EntityKind, Location)|
                    on_grid(self.size, key.1) && key.0.of(
                        self.data@[cell_index(self.size, key.1)],
                    ) is Some,
                |key: (EntityKind, Location)|
                    key.0.of(self.data@[cell_index(self.size, key.1)])->0,
            ),
        }
    }
}

/// Off the grid every slot reads as empty, none can be filled, nothing can be moved there, and
/// emptying a slot there changes nothing.
pub proof fn lemma_off_grid(grid: GridView, kind: EntityKind, location: Location, from: Location)
    requires
        grid.valid(),
        !on_grid(grid.size, location),
    ensures
        grid.occupant(kind, location) is None,
        !grid.vacant(kind, location),
        !grid.can_move(kind, from, location),
        grid.clear(kind, location) == grid,
{
    assert(grid.occupants.remove((kind, location)) =~= grid.occupants);
}

/// A slot that was just filled reads as the occupant it was filled with, and every other slot
/// reads as before.
pub proof fn lemma_get_after_set(
    grid: GridView,
    kind: EntityKind,
    location: Location,
    entity: Entity,
    other_kind: EntityKind,
    other: Location,
)
    requires
        grid.valid(),
        grid.vacant(kind, location),
    ensures
        grid.place(kind, location, entity).valid(),
        grid.place(kind, location, entity).occupant(kind, location) == Some(entity),
        (other_kind, other) != (kind, location) ==> grid.place(kind, location, entity).occupant(
            other_kind,
            other,
        ) == grid.occupant(other_kind, other),
{
}

/// Emptying a slot that was just filled gives back the occupant it was filled with, leaves the
/// slot empty, and leaves the grid as it was before the two operations.
pub proof fn lemma_take_after_set(grid: GridView, kind: EntityKind, location: Location, entity: Entity)
    requires
        grid.valid(),
        grid.vacant(kind, location),
    ensures
        grid.place(kind, location, entity).occupant(kind, location) == Some(entity),
        grid.place(kind, location, entity).clear(kind, location).occupant(kind, location) is None,
        grid.place(kind, location, entity).clear(kind, location) == grid,
{
    assert(grid.occupants.insert((kind, location), entity).remove((kind, location)) =~= grid.occupants);
}

/// A move that is refused leaves the grid as it was. A move that is made carries the occupant
/// from its cell to the target, leaves its cell empty and every other slot as it was.
pub proof fn lemma_move(
    grid: GridView,
    kind: EntityKind,
    from: Location,
    to: Location,
    other_kind: EntityKind,
    other: Location,
)
    requires
        grid.valid(),
    ensures
        (grid.occupant(kind, to) is Some || !on_grid(grid.size, to)) ==> !grid.can_move(kind, from, to),
        grid.can_move(kind, from, to) ==> {
            let moved = grid.relocate(kind, from, to);
            &&& moved.valid()
            &&& moved.occupant(kind, to) == grid.occupant(kind, from)
            &&& moved.occupant(kind, from) is None
            &&& (other_kind, other) != (kind, from) && (other_kind, other) != (kind, to)
                ==> moved.occupant(other_kind, other) == grid.occupant(other_kind, other)
        },
{
}

/// The two kinds are independent channels: filling or emptying a slot of one kind changes
/// neither which cells are open to the other kind nor the routes found for it.
pub proof fn lemma_kinds_independent(
    grid: GridView,
    kind: EntityKind,
    other_kind: EntityKind,
    location: Location,
    entity: Entity,
    from: Location,
    to: Location,
    steps: nat,
)
    requires
        kind != other_kind,
    ensures
        grid.place(other_kind, location, entity).open_cells(kind) == grid.open_cells(kind),
        grid.clear(other_kind, location).open_cells(kind) == grid.open_cells(kind),
        grid.place(other_kind, location, entity).route_to(kind, from, to, steps) == grid.route_to(
            kind,
            from,
            to,
            steps,
        ),
        grid.clear(other_kind, location).route_to(kind, from, to, steps) == grid.route_to(
            kind,
            from,
            to,
            steps,
        ),
{
    assert(grid.place(other_kind, location, entity).open_cells(kind) =~= grid.open_cells(kind));
    assert(grid.clear(other_kind, location).open_cells(kind) =~= grid.open_cells(kind));
}

/// Whether `found` is what a search along `order` for an occupant that `predicate` accepts
/// may return: the first cell after the start that holds an accepted occupant, every cell
/// between being empty or refused; or `None` where every cell after the start is empty or
/// refused.
pub open spec fn nearest_match<F: Fn(&Entity) -> bool>(
    grid: GridView,
    kind: EntityKind,
    order: Seq<Location>,
    predicate: F,
    found: Option<Location>,
) -> bool {
    match found {
        Some(cell) => exists|i: int|
            1 <= i < order.len() && #[trigger] order[i] == cell && accepted(
                grid,
                kind,
                predicate,
                cell,
            ) && forall|j: int| 1 <= j < i ==> refused(grid, kind, predicate, #[trigger] order[j]),
        None => forall|j: int|
            1 <= j < order.len() ==> refused(grid, kind, predicate, #[trigger] order[j]),
    }
}

/// Whether the tile slot at `location` reads after a grid was populated as it should: a tile
/// that was there is still there, and an empty slot holds a tile that `factory` may have made
/// for that cell.
pub open spec fn tiled<F: Fn(GridLocation) -> Entity>(
    before: GridView,
    after: GridView,
    factory: F,
    location: Location,
) -> bool {
    match before.occupant(EntityKind::Tile, location) {
        Some(entity) => after.occupant(EntityKind::Tile, location) == Some(entity),
        None => after.occupants.contains_key((EntityKind::Tile, location)) && call_ensures(
            factory,
            (GridLocation { location, kind: EntityKind::Tile },),
            after.occupants[(EntityKind::Tile, location)],
        ),
    }
}

/// Fills every empty tile slot of the grid, cell by cell in row-major order, with a tile that
/// `factory` makes for the cell. Unit slots and tiles already there stay as they are.
pub fn populate_grid<F: Fn(GridLocation) -> Entity>(grid: &mut Grid, factory: F)
    requires
        old(grid).well_formed(),
        forall|place: GridLocation| call_requires(factory, (place,)),
    ensures
        final(grid).well_formed(),
        final(grid)@.size == old(grid)@.size,
        forall|location: Location|
            final(grid)@.occupant(EntityKind::Unit, location) == #[trigger] old(grid)@.occupant(
                EntityKind::Unit,
                location,
            ),
        forall|location: Location|
            on_grid(old(grid)@.size, location) ==> #[trigger] tiled(
                old(grid)@,
                final(grid)@,
                factory,
                location,
            ),
{
    let count: usize = grid.data.len();
    let mut index: usize = 0;
    while index < count
        invariant
            grid.well_formed(),
            grid@.size == old(grid)@.size,
            count == area(grid@.size),
            index <= count,
            forall|place: GridLocation| call_requires(factory, (place,)),
            forall|location: Location|
                grid@.occupant(EntityKind::Unit, location) == #[trigger] old(grid)@.occupant(
                    EntityKind::Unit,
                    location,
                ),
            forall|location: Location|
                on_grid(grid@.size, location) && cell_index(grid@.size, location) < index
                    ==> #[trigger] tiled(old(grid)@, grid@, factory, location),
            forall|location: Location|
                on_grid(grid@.size, location) && cell_index(grid@.size, location) >= index
                    ==> grid@.occupant(EntityKind::Tile, location) == #[trigger] old(grid)@.occupant(
                    EntityKind::Tile,
                    location,
                ),
        decreases count - index,
    {
        let location = grid.location(index);
        let ghost before = grid@;
        proof {
            lemma_index_of_location(grid@.size, index as int);
        }
        if grid.get_entity(&EntityKind::Tile, &location).is_none() {
            let entity = factory(GridLocation::new(location, EntityKind::Tile));
            let stored = grid.set_entity(&EntityKind::Tile, &location, entity);
            assert(stored);
        }
        proof {
            assert forall|other: Location|
                on_grid(grid@.size, other) && cell_index(grid@.size, other) < index + 1 implies #[trigger] tiled(
                old(grid)@,
                grid@,
                factory,
                other,
            ) by {
                if cell_index(grid@.size, other) == index {
                    lemma_cell_index_injective(grid@.size, other, location);
                } else {
                    assert(tiled(old(grid)@, before, factory, other));
                }
            }
            assert forall|other: Location|
                on_grid(grid@.size, other) && cell_index(grid@.size, other) >= index + 1 implies grid@.occupant(
                EntityKind::Tile,
                other,
            ) == #[trigger] old(grid)@.occupant(EntityKind::Tile, other) by {
                assert(other != location);
            }
            assert forall|other: Location|
                grid@.occupant(EntityKind::Unit, other) == #[trigger] old(grid)@.occupant(
                    EntityKind::Unit,
                    other,
                ) by {
                assert(grid@.occupant(EntityKind::Unit, other) == before.occupant(
                    EntityKind::Unit,
                    other,
                ));
            }
        }
        index = index + 1;
    }
    proof {
        assert forall|location: Location| on_grid(old(grid)@.size, location) implies #[trigger] tiled(
            old(grid)@,
            grid@,
            factory,
            location,
        ) by {
            lemma_cell_index_bounds(grid@.size, location);
        }
    }
}

impl Grid {
    /// There is one cell per coordinate of the grid.
    pub closed spec fn cells_match(&self) -> bool {
        self.data@.len() == area(self.size)
    }

    /// The grid is consistent.
    pub open spec fn well_formed(&self) -> bool {
        self.cells_match() && self@.valid()
    }

    /// An empty grid. A negative component of `size` counts by its absolute value.
    pub fn new(size: Location) -> (r: Grid)
        requires
            size.x > i32::MIN,
            size.y > i32::MIN,
            magnitude(size.x) * magnitude(size.y) <= i32::MAX,
        ensures
            r.well_formed(),
            r@.size.x == magnitude(size.x),
            r@.size.y == magnitude(size.y),
            r@.occupants == Map::<(EntityKind, Location), Entity>::empty(),
    {
        let width: i32 = if size.x < 0 {
            -size.x
        } else {
            size.x
        };
        let height: i32 = if size.y < 0 {
            -size.y
        } else {
            size.y
        };
        let size = Location { x: width, y: height };
        let count: usize = cell_count(&size);
        let mut data: Vec<Space> = Vec::new();
        while data.len() < count
            invariant
                data.len() <= count,
                forall|i: int| 0 <= i < data.len() ==> data[i] == (Space { unit: None, tile: None }),
            decreases count - data.len(),
        {
            data.push(Space::default());
        }
        let grid = Grid { size, data };
        proof {
            assert forall|key: (EntityKind, Location)| !grid@.occupants.contains_key(key) by {
                if on_grid(size, key.1) {
                    lemma_cell_index_bounds(size, key.1);
                }
            }
        }
        grid
    }

    /// The size of the grid.
    pub fn size(&self) -> (r: Location)
        ensures
            r == self@.size,
    {
        self.size
    }

    /// The number of cells.
    pub fn spaces(&self) -> (r: i32)
        requires
            self.well_formed(),
        ensures
            r == area(self@.size),
    {
        assert(0 <= self.size.x * self.size.y) by (nonlinear_arith)
            requires
                0 <= self.size.x,
                0 <= self.size.y,
        ;
        self.size.x * self.size.y
    }

    /// The record for an occupant of `kind` at `location`, where the coordinate lies on the
    /// grid.
    pub fn get_location(&self, kind: &EntityKind, location: &Location) -> (r: Option<GridLocation>)
        requires
            self.well_formed(),
        ensures
            on_grid(self@.size, *location) ==> r == Some(
                (GridLocation { location: *location, kind: *kind }),
            ),
            !on_grid(self@.size, *location) ==> r is None,
    {
        if self.index(location).is_some() {
            Some(GridLocation::new(*location, *kind))
        } else {
            None
        }
    }

    /// The position of `location` in the cell array, where it lies on the grid.
    pub fn index(&self, location: &Location) -> (r: Option<usize>)
        requires
            self.well_formed(),
        ensures
            r is Some <==> on_grid(self@.size, *location),
            r matches Some(i) ==> i == cell_index(self@.size, *location) && i < area(self@.size),
    {
        let origin = Location::zero();
        if location_within(&origin, &self.size, location) {
            Some(location_to_index(&self.size, location))
        } else {
            None
        }
    }

    /// The occupant of the `kind` slot at `location`; `None` where the slot is empty or the
    /// coordinate lies off the grid.
    pub fn get_entity(&self, kind: &EntityKind, location: &Location) -> (r: Option<Entity>)
        requires
            self.well_formed(),
        ensures
            r == self@.occupant(*kind, *location),
            !on_grid(self@.size, *location) ==> r is None,
    {
        match self.index(location) {
            Some(index) => kind.get(&self.data[index]),
            None => None,
        }
    }

    /// Places `entity` in the `kind` slot at `location` and returns `true`; returns `false`,
    /// and changes nothing, where the coordinate lies off the grid or the slot is taken.
    pub fn set_entity(&mut self, kind: &EntityKind, location: &Location, entity: Entity) -> (r: bool)
        requires
            old(self).well_formed(),
        ensures
            final(self).well_formed(),
            r == old(self)@.vacant(*kind, *location),
            r ==> final(self)@ == old(self)@.place(*kind, *location, entity),
            !r ==> final(self)@ == old(self)@,
            !on_grid(old(self)@.size, *location) ==> !r,
    {
        match self.index(location) {
            Some(index) => {
                let mut space = self.data[index];
                if kind.get(&space).is_some() {
                    return false;
                }
                kind.set(&mut space, entity);
                self.data.set(index, space);
                proof {
                    self.lemma_cell_written(*old(self), *kind, *location, Some(entity));
                    assert(self@.occupants =~= old(self)@.occupants.insert((*kind, *location), entity));
                }
                true
            },
            None => false,
        }
    }

    /// Empties the `kind` slot at `location` and returns what it held; `None` where the slot
    /// was empty or the coordinate lies off the grid.
    pub fn take_entity(&mut self, kind: &EntityKind, location: &Location) -> (r: Option<Entity>)
        requires
            old(self).well_formed(),
        ensures
            final(self).well_formed(),
            r == old(self)@.occupant(*kind, *location),
            final(self)@ == old(self)@.clear(*kind, *location),
            !on_grid(old(self)@.size, *location) ==> r is None && final(self)@ == old(self)@,
    {
        match self.index(location) {
            Some(index) => {
                let mut space = self.data[index];
                let held = kind.take(&mut space);
                self.data.set(index, space);
                proof {
                    self.lemma_cell_written(*old(self), *kind, *location, None);
                    assert(self@.occupants =~= old(self)@.occupants.remove((*kind, *location)));
                }
                held
            },
            None => {
                proof {
                    assert(self@.occupants =~= old(self)@.occupants.remove((*kind, *location)));
                }
                None
            },
        }
    }

    /// Clears the slot that `place` records. To be called when the occupant recorded there
    /// leaves the grid, so that the slot does not keep a handle to it.
    pub fn remove(&mut self, place: &GridLocation) -> (r: Option<Entity>)
        requires
            old(self).well_formed(),
        ensures
            final(self).well_formed(),
            r == old(self)@.occupant(place.kind, place.location),
            final(self)@ == old(self)@.clear(place.kind, place.location),
    {
        self.take_entity(&place.kind, &place.location)
    }

    /// Creates an occupant of `kind` at `location` where that slot is vacant: `factory` is
    /// handed the record of where the occupant will stand and returns its handle, which is
    /// stored and returned. Where the slot is taken or the coordinate lies off the grid,
    /// `factory` is not called, nothing changes and `None` is returned.
    pub fn spawn<F: FnOnce(GridLocation) -> Entity>(
        &mut self,
        kind: &EntityKind,
        location: &Location,
        factory: F,
    ) -> (r: Option<Entity>)
        requires
            old(self).well_formed(),
            old(self)@.vacant(*kind, *location) ==> call_requires(
                factory,
                (GridLocation { location: *location, kind: *kind },),
            ),
        ensures
            final(self).well_formed(),
            r is Some <==> old(self)@.vacant(*kind, *location),
            r matches Some(entity) ==> call_ensures(
                factory,
                (GridLocation { location: *location, kind: *kind },),
                entity,
            ) && final(self)@ == old(self)@.place(*kind, *location, entity),
            r is None ==> final(self)@ == old(self)@,
            !on_grid(old(self)@.size, *location) ==> r is None,
    {
        if self.get_entity(kind, location).is_none() && self.index(location).is_some() {
            let entity = factory(GridLocation::new(*location, *kind));
            let stored = self.set_entity(kind, location, entity);
            assert(stored);
            Some(entity)
        } else {
            None
        }
    }

    /// Moves the occupant that `from` records to `to`, updates the record and returns the
    /// occupant. Where `to` lies off the grid or holds an occupant of the same kind, or where
    /// the grid holds no occupant at the recorded cell, nothing changes and `None` is returned.
    pub fn move_to(&mut self, from: &mut GridLocation, to: &Location) -> (r: Option<Entity>)
        requires
            old(self).well_formed(),
        ensures
            final(self).well_formed(),
            r is Some <==> old(self)@.can_move(old(from).kind, old(from).location, *to),
            r is Some ==> r == old(self)@.occupant(old(from).kind, old(from).location)
                && final(self)@ == old(self)@.relocate(old(from).kind, old(from).location, *to)
                && *final(from) == (GridLocation { location: *to, kind: old(from).kind }),
            r is None ==> final(self)@ == old(self)@ && *final(from) == *old(from),
            (!on_grid(old(self)@.size, *to) || old(self)@.occupant(old(from).kind, *to) is Some) ==> r is None,
    {
        let kind = from.kind;
        if self.index(to).is_some() && self.get_entity(&kind, to).is_none() && self.get_entity(
            &kind,
            &from.location,
        ).is_some() {
            let taken = self.take_entity(&kind, &from.location);
            let entity = taken.unwrap();
            let stored = self.set_entity(&kind, to, entity);
            assert(stored);
            from.location = *to;
            Some(entity)
        } else {
            None
        }
    }

    /// For every cell in row-major order, whether its `kind` slot is empty.
    pub fn open_cells(&self, kind: &EntityKind) -> (r: Vec<bool>)
        requires
            self.well_formed(),
        ensures
            r@ == self@.open_cells(*kind),
    {
        let mut open: Vec<bool> = Vec::new();
        let mut i: usize = 0;
        while i < self.data.len()
            invariant
                self.well_formed(),
                i <= self.data.len(),
                open.len() == i,
                forall|j: int|
                    0 <= j < i ==> open[j] == !self@.occupants.contains_key(
                        (*kind, cell_location(self@.size, j)),
                    ),
            decreases self.data.len() - i,
        {
            proof {
                lemma_index_of_location(self.size, i as int);
            }
            open.push(kind.get(&self.data[i]).is_none());
            i = i + 1;
        }
        open
    }

    /// The route for an occupant of `kind` from `from` to `to`, cut down to the start and at
    /// most `steps` moves. A step may enter a cell on the grid whose `kind` slot is empty, and
    /// may enter `to` whatever it holds. The route is empty where `to` cannot be reached; else
    /// it begins at `from`, and holds exactly `steps + 1` cells where `steps` is no more than
    /// the number of steps between `from` and `to`.
    pub fn a_star_to(&self, kind: &EntityKind, from: &Location, to: &Location, steps: usize) -> (r: Vec<
        Location,
    >)
        requires
            self.well_formed(),
        ensures
            r@ == self@.route_to(*kind, *from, *to, steps as nat),
            answers(
                self@.size,
                self@.open_cells(*kind),
                *from,
                *to,
                planned(self@.size, self@.open_cells(*kind), *from, *to),
            ),
            r@.len() == 0 <==> forall|path: Seq<Location>|
                !#[trigger] is_walk(self@.size, self@.open_cells(*kind), *from, *to, path),
            r@.len() > 0 ==> r@[0] == *from && r@.len() <= steps + 1,
            r@.len() > 0 && steps <= manhattan(*from, *to) ==> r@.len() == steps + 1,
            r@.len() > 0 && steps > manhattan(*from, *to) ==> r@.len() > manhattan(*from, *to),
    {
        let open = self.open_cells(kind);
        let path = a_star(&self.size, &open, from, to);
        proof {
            if path@.len() > 0 {
                lemma_limited_route(self.size, open@, *from, *to, path@, steps as nat);
                lemma_walk_length(self.size, open@, *from, *to, path@);
            }
        }
        limit_steps(path, steps)
    }

    /// The route of `a_star_to`, without its last cell where that cell is `to`: a mover stops
    /// next to its target, not on it.
    pub fn a_star_next_to(&self, kind: &EntityKind, from: &Location, to: &Location, steps: usize) -> (r:
        Vec<Location>)
        requires
            self.well_formed(),
        ensures
            r@ == self@.route_next_to(*kind, *from, *to, steps as nat),
            !r@.contains(*to),
    {
        let path = self.a_star_to(kind, from, to, steps);
        proof {
            let full = planned(self@.size, self@.open_cells(*kind), *from, *to);
            if full.len() > 0 {
                lemma_stops_short(self@.size, self@.open_cells(*kind), *from, *to, full, steps as nat);
            }
        }
        stop_before(path, to)
    }

    /// Moves the occupant that `from` records along its route towards `to`, as far as `steps`
    /// moves reach and no further than next to `to`. Returns the occupant where it was moved;
    /// `None`, with nothing changed, where there is no route or the move is refused.
    pub fn a_star_move(&mut self, from: &mut GridLocation, to: &Location, steps: usize) -> (r: Option<
        Entity,
    >)
        requires
            old(self).well_formed(),
        ensures
            final(self).well_formed(),
            ({
                let route = old(self)@.route_next_to(
                    old(from).kind,
                    old(from).location,
                    *to,
                    steps as nat,
                );
                let moves = route.len() > 0 && old(self)@.can_move(
                    old(from).kind,
                    old(from).location,
                    route.last(),
                );
                &&& r is Some <==> moves
                &&& r is Some ==> r == old(self)@.occupant(old(from).kind, old(from).location)
                    && final(self)@ == old(self)@.relocate(
                    old(from).kind,
                    old(from).location,
                    route.last(),
                ) && *final(from) == (GridLocation { location: route.last(), kind: old(from).kind })
                &&& r is None ==> final(self)@ == old(self)@ && *final(from) == *old(from)
            }),
    {
        let path = self.a_star_next_to(&from.kind, &from.location, to, steps);
        let count: usize = path.len();
        if count > 0 {
            let target = path[count - 1];
            self.move_to(from, &target)
        } else {
            None
        }
    }

    /// The nearest cell other than `location`, in breadth-first order from `location` biased
    /// along `direction` and confined to `selection`, whose `kind` slot holds an occupant that
    /// `predicate` accepts.
    pub fn nearest_entity<F: Fn(&Entity) -> bool>(
        &self,
        kind: &EntityKind,
        location: &Location,
        direction: &Location,
        selection: Shape,
        predicate: F,
    ) -> (r: Option<Location>)
        requires
            self.well_formed(),
            forall|entity: Entity| call_requires(predicate, (&entity,)),
        ensures
            nearest_match(
                self@,
                *kind,
                breadth_first(self@.size, *location, *direction, selection),
                predicate,
                r,
            ),
    {
        let ghost order = breadth_first(self@.size, *location, *direction, selection);
        let mut walk = BreadthFirst::new(self.size, *location, *direction, selection);
        let first = walk.next();
        if first.is_none() {
            return None;
        }
        let ghost mut done: int = 1;
        loop
            invariant
                self.well_formed(),
                walk.well_formed(),
                walk.extent() == self@.size,
                1 <= done <= order.len(),
                walk.remaining() == order.skip(done),
                order == breadth_first(self@.size, *location, *direction, selection),
                forall|entity: Entity| call_requires(predicate, (&entity,)),
                forall|j: int| 1 <= j < done ==> refused(self@, *kind, predicate, #[trigger] order[j]),
            decreases order.len() - done,
        {
            proof {
                walk.lemma_remaining_cells();
            }
            match walk.next() {
                None => {
                    return None;
                },
                Some(index) => {
                    proof {
                        lemma_location_of_index(self@.size, order[done]);
                        lemma_cell_index_bounds(self@.size, order[done]);
                    }
                    let found = self.location(index);
                    match self.get_entity(kind, &found) {
                        Some(entity) => {
                            if predicate(&entity) {
                                return Some(found);
                            }
                        },
                        None => {},
                    }
                    proof {
                        done = done + 1;
                    }
                },
            }
        }
    }

    /// The nearest cell other than `location`, in breadth-first order from `location` biased
    /// along `direction` and confined to `selection`, whose `kind` slot is empty.
    pub fn nearest_empty(
        &self,
        kind: &EntityKind,
        location: &Location,
        direction: &Location,
        selection: Shape,
    ) -> (r: Option<Location>)
        requires
            self.well_formed(),
        ensures
            r == first_unoccupied(
                self@,
                *kind,
                breadth_first(self@.size, *location, *direction, selection),
                1,
            ),
    {
        let ghost order = breadth_first(self@.size, *location, *direction, selection);
        let mut walk = BreadthFirst::new(self.size, *location, *direction, selection);
        let first = walk.next();
        if first.is_none() {
            return None;
        }
        let ghost mut done: int = 1;
        loop
            invariant
                self.well_formed(),
                walk.well_formed(),
                walk.extent() == self@.size,
                1 <= done <= order.len(),
                walk.remaining() == order.skip(done),
                order == breadth_first(self@.size, *location, *direction, selection),
                first_unoccupied(self@, *kind, order, 1) == first_unoccupied(
                    self@,
                    *kind,
                    order,
                    done,
                ),
            decreases order.len() - done,
        {
            proof {
                walk.lemma_remaining_cells();
            }
            match walk.next() {
                None => {
                    return None;
                },
                Some(index) => {
                    proof {
                        lemma_location_of_index(self@.size, order[done]);
                        lemma_cell_index_bounds(self@.size, order[done]);
                    }
                    let found = self.location(index);
                    if self.get_entity(kind, &found).is_none() {
                        return Some(found);
                    }
                    proof {
                        done = done + 1;
                    }
                },
            }
        }
    }

    /// The coordinate of the cell at position `index`.
    fn location(&self, index: usize) -> (r: Location)
        requires
            self.well_formed(),
            index < area(self@.size),
        ensures
            r == cell_location(self@.size, index as int),
    {
        proof {
            lemma_index_of_location(self.size, index as int);
        }
        index_to_location(&self.size, index)
    }

    /// How the slots of a grid read after one slot of one cell was rewritten.
    proof fn lemma_cell_written(
        self,
        before: Grid,
        kind: EntityKind,
        location: Location,
        occupant: Option<Entity>,
    )
        requires
            before.well_formed(),
            on_grid(before.size, location),
            self.size == before.size,
            self.data@ == before.data@.update(
                cell_index(before.size, location),
                kind.with(before.data@[cell_index(before.size, location)], occupant),
            ),
        ensures
            self.cells_match(),
            forall|key: (EntityKind, Location)|
                on_grid(self.size, key.1) ==> #[trigger] key.0.of(
                    self.data@[cell_index(self.size, key.1)],
                ) == if key == (kind, location) {
                    occupant
                } else {
                    key.0.of(before.data@[cell_index(before.size, key.1)])
                },
    {
        lemma_cell_index_bounds(before.size, location);
        assert forall|key: (EntityKind, Location)| on_grid(self.size, key.1) implies #[trigger] key.0.of(
            self.data@[cell_index(self.size, key.1)],
        ) == if key == (kind, location) {
            occupant
        } else {
            key.0.of(before.data@[cell_index(before.size, key.1)])
        } by {
            lemma_cell_index_bounds(before.size, key.1);
            if key.1 != location {
                if cell_index(before.size, key.1) == cell_index(before.size, location) {
                    lemma_cell_index_injective(before.size, key.1, location);
                }
            }
        }
    }
}

} // verus!
