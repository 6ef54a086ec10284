//! Direction-biased breadth-first traversal of a grid.
//!
//! The traversal keeps a queue of coordinates and a mark per cell. A coordinate taken from the
//! queue is visited if it lies on the grid, is unmarked and belongs to the search shape; a
//! visited cell is marked and its four neighbours join the queue in the order bias direction,
//! quarter turn, reverse, reverse quarter turn.

use vstd::prelude::*;
use std::collections::VecDeque;
use crate::cords::area;
use crate::cords::cell_index;
use crate::cords::lemma_cell_index_bounds;
use crate::cords::lemma_cell_index_injective;
use crate::cords::location_to_index;
use crate::cords::location_within;
use crate::cords::on_grid;
use crate::location::Location;
use crate::selection::Shape;

verus! {

/// The direction a traversal fans out along: the requested one where it is one of the four unit
/// directions, else `+X`.
pub open spec fn bias(direction: Location) -> Location {
    if direction.is_unit() {
        direction
    } else {
        Location { x: 1, y: 0 }
    }
}

/// The four neighbours of `location` in visiting priority for the unit direction `d`.
pub open spec fn neighbours(location: Location, d: Location) -> Seq<Location> {
    seq![
        location.plus(d),
        location.plus(d.quarter_turn()),
        location.minus(d),
        location.minus(d.quarter_turn()),
    ]
}

/// The number of unmarked cells.
pub open spec fn unseen(seen: Seq<bool>) -> nat
    decreases seen.len(),
{
    if seen.len() == 0 {
        0
    } else {
        unseen(seen.drop_last()) + if seen.last() {
            0nat
        } else {
            1nat
        }
    }
}

/// Marking an unmarked cell leaves one unmarked cell fewer.
pub proof fn lemma_unseen_mark(seen: Seq<bool>, index: int)
    requires
        0 <= index < seen.len(),
        !seen[index],
    ensures
        unseen(seen.update(index, true)) + 1 == unseen(seen),
    decreases seen.len(),
{
    let marked = seen.update(index, true);
    if index == seen.len() - 1 {
        assert(marked.drop_last() =~= seen.drop_last());
    } else {
        assert(marked.drop_last() =~= seen.drop_last().update(index, true));
        lemma_unseen_mark(seen.drop_last(), index);
    }
}

/// Whether a coordinate taken from the queue is visited.
pub open spec fn eligible(size: Location, shape: Shape, seen: Seq<bool>, location: Location) -> bool {
    &&& on_grid(size, location)
    &&& 0 <= cell_index(size, location) < seen.len()
    &&& !seen[cell_index(size, location)]
    &&& shape.holds(location)
}

/// The cells a traversal visits, in order, from a given queue and marking.
pub open spec fn sweep(
    size: Location,
    d: Location,
    shape: Shape,
    queue: Seq<Location>,
    seen: Seq<bool>,
) -> Seq<Location>
    decreases unseen(seen), queue.len(),
{
    if queue.len() == 0 {
        Seq::empty()
    } else {
        let location = queue[0];
        if eligible(size, shape, seen, location) {
            proof {
                lemma_unseen_mark(seen, cell_index(size, location));
            }
            seq![location] + sweep(
                size,
                d,
                shape,
                queue.skip(1) + neighbours(location, d),
                seen.update(cell_index(size, location), true),
            )
        } else {
            sweep(size, d, shape, queue.skip(1), seen)
        }
    }
}

/// The marking of a grid on which nothing has been visited.
pub open spec fn unmarked(size: Location) -> Seq<bool> {
    Seq::new(area(size) as nat, |i: int| false)
}

/// The cells visited by a traversal of a grid of the given size from `start`, in order.
pub open spec fn breadth_first(size: Location, start: Location, direction: Location, shape: Shape) -> Seq<
    Location,
> {
    sweep(size, bias(direction), shape, seq![start], unmarked(size))
}

/// Every visited cell lies on the grid, belongs to the shape and was unmarked before, and no
/// cell is visited twice.
pub proof fn lemma_sweep_visits(
    size: Location,
    d: Location,
    shape: Shape,
    queue: Seq<Location>,
    seen: Seq<bool>,
)
    ensures
        forall|i: int|
            0 <= i < sweep(size, d, shape, queue, seen).len() ==> eligible(
                size,
                shape,
                seen,
                #[trigger] sweep(size, d, shape, queue, seen)[i],
            ),
        sweep(size, d, shape, queue, seen).no_duplicates(),
    decreases unseen(seen), queue.len(),
{
    if queue.len() > 0 {
        let location = queue[0];
        if eligible(size, shape, seen, location) {
            // The cells visited after `location` were unmarked once `location` was marked, so
            // they differ from it and were unmarked before.
            let index = cell_index(size, location);
            lemma_unseen_mark(seen, index);
            lemma_sweep_visits(
                size,
                d,
                shape,
                queue.skip(1) + neighbours(location, d),
                seen.update(index, true),
            );
        } else {
            lemma_sweep_visits(size, d, shape, queue.skip(1), seen);
        }
    }
}

/// Whether `path` is a chain of cells, each one step from the one before, that a traversal
/// with the marking `seen` would visit.
pub open spec fn linked(size: Location, shape: Shape, seen: Seq<bool>, path: Seq<Location>) -> bool {
    &&& path.len() >= 1
    &&& forall|i: int| 0 <= i < path.len() ==> eligible(size, shape, seen, #[trigger] path[i])
    &&& forall|i: int| 0 <= i < path.len() - 1 ==> (#[trigger] path[i]).adjacent(path[i + 1])
}

/// A cell one step from a cell on the grid is one of its four neighbours.
proof fn lemma_adjacent_is_neighbour(size: Location, cell: Location, next: Location, d: Location)
    requires
        on_grid(size, cell),
        on_grid(size, next),
        cell.adjacent(next),
        d.is_unit(),
    ensures
        neighbours(cell, d).contains(next),
{
    let dx = cell.x - next.x;
    let dy = cell.y - next.y;
    assert(-1 <= dx <= 1 && -1 <= dy <= 1 && (dx == 0 || dy == 0) && (dx != 0 || dy != 0))
        by (nonlinear_arith)
        requires
            dx * dx + dy * dy == 1,
    ;
    assert(next == neighbours(cell, d)[0] || next == neighbours(cell, d)[1] || next == neighbours(
        cell,
        d,
    )[2] || next == neighbours(cell, d)[3]);
}

/// A chain that does not end in the cell `head` can be rerouted past it: some chain with the
/// same end avoids `head` altogether and starts where the first did or one step from `head`.
proof fn lemma_chain_past(size: Location, shape: Shape, seen: Seq<bool>, head: Location, path: Seq<Location>) -> (rest: Seq<
    Location,
>)
    requires
        eligible(size, shape, seen, head),
        linked(size, shape, seen, path),
        path.last() != head,
    ensures
        linked(size, shape, seen.update(cell_index(size, head), true), rest),
        rest.last() == path.last(),
        (rest[0] == path[0] && path[0] != head) || head.adjacent(rest[0]),
    decreases path.len(),
{
    let marked = seen.update(cell_index(size, head), true);
    let end = path.last();
    assert(eligible(size, shape, marked, end)) by {
        if cell_index(size, end) == cell_index(size, head) {
            lemma_cell_index_injective(size, end, head);
        }
    }
    if path.len() == 1 {
        path
    } else {
        let before = path.drop_last();
        if before.last() == head {
            seq![end]
        } else {
            let shorter = lemma_chain_past(size, shape, seen, head, before);
            let rest = shorter.push(end);
            assert forall|i: int| 0 <= i < rest.len() - 1 implies (#[trigger] rest[i]).adjacent(
                rest[i + 1],
            ) by {
                if i < shorter.len() - 1 {
                    assert(rest[i] == shorter[i] && rest[i + 1] == shorter[i + 1]);
                } else {
                    assert(rest[i] == before.last() && rest[i + 1] == end);
                }
            }
            assert forall|i: int| 0 <= i < rest.len() implies eligible(
                size,
                shape,
                marked,
                #[trigger] rest[i],
            ) by {
                if i < shorter.len() {
                    assert(rest[i] == shorter[i]);
                }
            }
            rest
        }
    }
}

/// Every cell at the end of a chain that starts at a queued cell is visited.
pub proof fn lemma_sweep_reaches(
    size: Location,
    d: Location,
    shape: Shape,
    queue: Seq<Location>,
    seen: Seq<bool>,
    path: Seq<Location>,
)
    requires
        d.is_unit(),
        linked(size, shape, seen, path),
        queue.contains(path[0]),
    ensures
        sweep(size, d, shape, queue, seen).contains(path.last()),
    decreases unseen(seen), queue.len(),
{
    let head = queue[0];
    let found = sweep(size, d, shape, queue, seen);
    let at = choose|i: int| 0 <= i < queue.len() && queue[i] == path[0];
    if eligible(size, shape, seen, head) {
        let marked = seen.update(cell_index(size, head), true);
        let next = queue.skip(1) + neighbours(head, d);
        let later = sweep(size, d, shape, next, marked);
        lemma_unseen_mark(seen, cell_index(size, head));
        if path.last() == head {
            assert(found[0] == head);
        } else {
            let rest = lemma_chain_past(size, shape, seen, head, path);
            if rest[0] == path[0] && path[0] != head {
                assert(next[at - 1] == queue[at]);
            } else {
                lemma_adjacent_is_neighbour(size, head, rest[0], d);
                let k = choose|k: int|
                    0 <= k < neighbours(head, d).len() && neighbours(head, d)[k] == rest[0];
                assert(next[queue.len() - 1 + k] == rest[0]);
            }
            lemma_sweep_reaches(size, d, shape, next, marked, rest);
            let j = choose|j: int| 0 <= j < later.len() && later[j] == path.last();
            assert(found[j + 1] == path.last());
        }
    } else {
        assert(queue.skip(1)[at - 1] == path[0]);
        lemma_sweep_reaches(size, d, shape, queue.skip(1), seen, path);
    }
}

/// Whether a chain of cells on the grid and in the shape, each one step from the one before,
/// links `cell` to `start`.
pub open spec fn connected(size: Location, shape: Shape, start: Location, cell: Location) -> bool {
    exists|path: Seq<Location>| #[trigger]
        linked(size, shape, unmarked(size), path) && path[0] == start && path.last() == cell
}

/// Whether `cell` may stand in the queue of a traversal from `start`: it is the start or one
/// step from a cell linked to the start.
pub open spec fn queued(size: Location, shape: Shape, start: Location, cell: Location) -> bool {
    cell == start || exists|from: Location| #[trigger]
        connected(size, shape, start, from) && from.adjacent(cell)
}

/// A queued cell that is visited is linked to the start.
proof fn lemma_queued_connected(
    size: Location,
    shape: Shape,
    start: Location,
    seen: Seq<bool>,
    cell: Location,
)
    requires
        queued(size, shape, start, cell),
        eligible(size, shape, seen, cell),
    ensures
        connected(size, shape, start, cell),
{
    lemma_cell_index_bounds(size, cell);
    if cell == start {
        let path = seq![start];
        assert(linked(size, shape, unmarked(size), path));
    } else {
        let from = choose|from: Location| #[trigger]
            connected(size, shape, start, from) && from.adjacent(cell);
        let chain = choose|path: Seq<Location>| #[trigger]
            linked(size, shape, unmarked(size), path) && path[0] == start && path.last() == from;
        let path = chain.push(cell);
        assert forall|i: int| 0 <= i < path.len() implies eligible(
            size,
            shape,
            unmarked(size),
            #[trigger] path[i],
        ) by {
            if i < chain.len() {
                assert(path[i] == chain[i]);
            }
        }
        assert forall|i: int| 0 <= i < path.len() - 1 implies (#[trigger] path[i]).adjacent(
            path[i + 1],
        ) by {
            if i < chain.len() - 1 {
                assert(path[i] == chain[i] && path[i + 1] == chain[i + 1]);
            } else {
                assert(path[i] == from && path[i + 1] == cell);
            }
        }
        assert(linked(size, shape, unmarked(size), path));
    }
}

/// The four neighbours of a cell on the grid are each one step from it.
proof fn lemma_neighbours_adjacent(size: Location, cell: Location, d: Location)
    requires
        on_grid(size, cell),
        d.is_unit(),
    ensures
        forall|k: int| 0 <= k < 4 ==> cell.adjacent(#[trigger] neighbours(cell, d)[k]),
{
    let near = neighbours(cell, d);
    assert forall|k: int| 0 <= k < 4 implies cell.adjacent(#[trigger] near[k]) by {
        let dx = cell.x - near[k].x;
        let dy = cell.y - near[k].y;
        assert(dx * dx + dy * dy == 1) by (nonlinear_arith)
            requires
                (dx == 0 && (dy == 1 || dy == -1)) || (dy == 0 && (dx == 1 || dx == -1)),
        ;
    }
}

/// Every visited cell is linked to the start, where every queued cell is the start or one
/// step from a cell linked to it.
pub proof fn lemma_sweep_connected(
    size: Location,
    d: Location,
    shape: Shape,
    start: Location,
    queue: Seq<Location>,
    seen: Seq<bool>,
)
    requires
        d.is_unit(),
        forall|i: int| 0 <= i < queue.len() ==> queued(size, shape, start, #[trigger] queue[i]),
    ensures
        forall|i: int|
            0 <= i < sweep(size, d, shape, queue, seen).len() ==> connected(
                size,
                shape,
                start,
                #[trigger] sweep(size, d, shape, queue, seen)[i],
            ),
    decreases unseen(seen), queue.len(),
{
    if queue.len() > 0 {
        let head = queue[0];
        if eligible(size, shape, seen, head) {
            let marked = seen.update(cell_index(size, head), true);
            let next = queue.skip(1) + neighbours(head, d);
            lemma_unseen_mark(seen, cell_index(size, head));
            lemma_queued_connected(size, shape, start, seen, head);
            lemma_neighbours_adjacent(size, head, d);
            // Every cell of the next queue was queued before or is a neighbour of `head`.
            assert forall|i: int| 0 <= i < next.len() implies queued(
                size,
                shape,
                start,
                #[trigger] next[i],
            ) by {
                if i >= queue.len() - 1 {
                    assert(head.adjacent(neighbours(head, d)[i - (queue.len() - 1)]));
                }
            }
            lemma_sweep_connected(size, d, shape, start, next, marked);
            let found = sweep(size, d, shape, queue, seen);
            let later = sweep(size, d, shape, next, marked);
            assert(found == seq![head] + later);
            assert forall|i: int| 0 <= i < found.len() implies connected(
                size,
                shape,
                start,
                #[trigger] found[i],
            ) by {
                if i > 0 {
                    assert(found[i] == later[i - 1]);
                }
            }
        } else {
            assert forall|i: int| 0 <= i < queue.skip(1).len() implies queued(
                size,
                shape,
                start,
                #[trigger] queue.skip(1)[i],
            ) by {
                assert(queue.skip(1)[i] == queue[i + 1]);
            }
            lemma_sweep_connected(size, d, shape, start, queue.skip(1), seen);
            assert(sweep(size, d, shape, queue, seen) == sweep(size, d, shape, queue.skip(1), seen));
        }
    }
}

/// A traversal visits exactly the cells that a chain of cells on the grid and in the shape,
/// each one step from the one before, links to its start.
pub proof fn lemma_breadth_first_region(
    size: Location,
    start: Location,
    direction: Location,
    shape: Shape,
    cell: Location,
)
    ensures
        breadth_first(size, start, direction, shape).contains(cell) <==> connected(
            size,
            shape,
            start,
            cell,
        ),
{
    let order = breadth_first(size, start, direction, shape);
    if connected(size, shape, start, cell) {
        let path = choose|path: Seq<Location>| #[trigger]
            linked(size, shape, unmarked(size), path) && path[0] == start && path.last() == cell;
        lemma_breadth_first_reaches(size, start, direction, shape, path);
    }
    if order.contains(cell) {
        lemma_sweep_connected(size, bias(direction), shape, start, seq![start], unmarked(size));
    }
}

/// A traversal visits every cell that a chain of cells on the grid and in the shape, each one
/// step from the one before, links to its start.
pub proof fn lemma_breadth_first_reaches(
    size: Location,
    start: Location,
    direction: Location,
    shape: Shape,
    path: Seq<Location>,
)
    requires
        linked(size, shape, unmarked(size), path),
        path[0] == start,
    ensures
        breadth_first(size, start, direction, shape).contains(path.last()),
{
    lemma_sweep_reaches(size, bias(direction), shape, seq![start], unmarked(size), path);
}

/// A traversal visits only cells that lie on the grid and in the shape, and none twice.
pub proof fn lemma_breadth_first_cells(size: Location, start: Location, direction: Location, shape: Shape)
    ensures
        forall|i: int|
            0 <= i < breadth_first(size, start, direction, shape).len() ==> {
                let cell = #[trigger] breadth_first(size, start, direction, shape)[i];
                on_grid(size, cell) && shape.holds(cell)
            },
        breadth_first(size, start, direction, shape).no_duplicates(),
{
    lemma_sweep_visits(size, bias(direction), shape, seq![start], unmarked(size));
}

/// A traversal visits its start first where the start lies on the grid and in the shape, and
/// visits nothing at all where it does not.
pub proof fn lemma_breadth_first_start(size: Location, start: Location, direction: Location, shape: Shape)
    ensures
        on_grid(size, start) && shape.holds(start) ==> breadth_first(size, start, direction, shape).len() > 0
            && breadth_first(size, start, direction, shape)[0] == start,
        !(on_grid(size, start) && shape.holds(start)) ==> breadth_first(
            size,
            start,
            direction,
            shape,
        ).len() == 0,
{
    if on_grid(size, start) {
        lemma_cell_index_bounds(size, start);
    }
    if !eligible(size, shape, unmarked(size), start) {
        // The start is dropped from the queue, and nothing is left in it.
        assert(sweep(size, bias(direction), shape, seq![start].skip(1), unmarked(size)).len() == 0);
    }
}

/// The fan-out of a traversal: where the start and its four neighbours all lie on the grid and
/// in the shape, the first five cells visited are the start, then the neighbour along the bias
/// direction, the one a quarter turn on, the one against the direction and the one a quarter
/// turn back.
pub proof fn lemma_fan_out(size: Location, start: Location, direction: Location, shape: Shape)
    requires
        on_grid(size, start),
        shape.holds(start),
        forall|i: int|
            0 <= i < 4 ==> on_grid(size, #[trigger] neighbours(start, bias(direction))[i])
                && shape.holds(neighbours(start, bias(direction))[i]),
    ensures
        breadth_first(size, start, direction, shape).len() >= 5,
        breadth_first(size, start, direction, shape).take(5) == seq![start] + neighbours(
            start,
            bias(direction),
        ),
{
    let d = bias(direction);
    let near = neighbours(start, d);
    let n0 = near[0];
    let n1 = near[1];
    let n2 = near[2];
    let n3 = near[3];
    lemma_cell_index_bounds(size, start);
    lemma_cell_index_bounds(size, n0);
    lemma_cell_index_bounds(size, n1);
    lemma_cell_index_bounds(size, n2);
    lemma_cell_index_bounds(size, n3);
    let differ = |a: Location, b: Location| a != b && cell_index(size, a) != cell_index(size, b);
    assert(differ(start, n0) && differ(start, n1) && differ(start, n2) && differ(start, n3) && differ(
        n0,
        n1,
    ) && differ(n0, n2) && differ(n0, n3) && differ(n1, n2) && differ(n1, n3) && differ(n2, n3)) by {
        if cell_index(size, start) == cell_index(size, n0) {
            lemma_cell_index_injective(size, start, n0);
        }
        if cell_index(size, start) == cell_index(size, n1) {
            lemma_cell_index_injective(size, start, n1);
        }
        if cell_index(size, start) == cell_index(size, n2) {
            lemma_cell_index_injective(size, start, n2);
        }
        if cell_index(size, start) == cell_index(size, n3) {
            lemma_cell_index_injective(size, start, n3);
        }
        if cell_index(size, n0) == cell_index(size, n1) {
            lemma_cell_index_injective(size, n0, n1);
        }
        if cell_index(size, n0) == cell_index(size, n2) {
            lemma_cell_index_injective(size, n0, n2);
        }
        if cell_index(size, n0) == cell_index(size, n3) {
            lemma_cell_index_injective(size, n0, n3);
        }
        if cell_index(size, n1) == cell_index(size, n2) {
            lemma_cell_index_injective(size, n1, n2);
        }
        if cell_index(size, n1) == cell_index(size, n3) {
            lemma_cell_index_injective(size, n1, n3);
        }
        if cell_index(size, n2) == cell_index(size, n3) {
            lemma_cell_index_injective(size, n2, n3);
        }
    }
    let s0 = unmarked(size);
    let q0 = seq![start];
    let s1 = s0.update(cell_index(size, start), true);
    let q1 = q0.skip(1) + neighbours(start, d);
    let s2 = s1.update(cell_index(size, n0), true);
    let q2 = q1.skip(1) + neighbours(n0, d);
    let s3 = s2.update(cell_index(size, n1), true);
    let q3 = q2.skip(1) + neighbours(n1, d);
    let s4 = s3.update(cell_index(size, n2), true);
    let q4 = q3.skip(1) + neighbours(n2, d);
    let s5 = s4.update(cell_index(size, n3), true);
    let q5 = q4.skip(1) + neighbours(n3, d);
    // The start is visited, then each neighbour in turn: it heads the queue, and it is none
    // of the cells marked so far.
    let r5 = sweep(size, d, shape, q5, s5);
    let r4 = sweep(size, d, shape, q4, s4);
    assert(q4[0] == n3 && r4 == seq![n3] + r5);
    let r3 = sweep(size, d, shape, q3, s3);
    assert(q3[0] == n2 && r3 == seq![n2] + r4);
    let r2 = sweep(size, d, shape, q2, s2);
    assert(q2[0] == n1 && r2 == seq![n1] + r3);
    let r1 = sweep(size, d, shape, q1, s1);
    assert(q1[0] == n0 && r1 == seq![n0] + r2);
    let r0 = sweep(size, d, shape, q0, s0);
    assert(r0 == seq![start] + r1);
    assert(r0.take(5) =~= seq![start] + near);
}

/// A traversal in progress. Each call of `next` hands out the position of the next visited cell.
#[derive(Clone, Debug)]
pub struct BreadthFirst {
    size: Location,
    direction: Location,
    shape: Shape,
    queue: VecDeque<Location>,
    seen: Vec<bool>,
}

impl BreadthFirst {
    /// The representation is consistent: one mark per cell and a unit direction.
    pub closed spec fn well_formed(&self) -> bool {
        &&& 0 <= self.size.x
        &&& 0 <= self.size.y
        &&& self.seen@.len() == area(self.size)
        &&& area(self.size) <= usize::MAX
        &&& self.direction.is_unit()
    }

    /// The size of the grid being traversed.
    pub closed spec fn extent(&self) -> Location {
        self.size
    }

    /// The cells still to be visited, in order.
    pub closed spec fn remaining(&self) -> Seq<Location> {
        sweep(self.size, self.direction, self.shape, self.queue@, self.seen@)
    }

    /// Every cell still to be visited lies on the grid and in the shape, and none comes twice.
    pub proof fn lemma_remaining_cells(&self)
        ensures
            forall|i: int|
                0 <= i < self.remaining().len() ==> on_grid(self.extent(), #[trigger] self.remaining()[i]),
            self.remaining().no_duplicates(),
    {
        lemma_sweep_visits(self.size, self.direction, self.shape, self.queue@, self.seen@);
    }

    /// Starts a traversal of a grid of the given size from `start`.
    pub fn new(size: Location, start: Location, direction: Location, shape: Shape) -> (r: BreadthFirst)
        requires
            0 <= size.x,
            0 <= size.y,
            area(size) <= usize::MAX,
        ensures
            r.well_formed(),
            r.extent() == size,
            r.remaining() == breadth_first(size, start, direction, shape),
    {
        let count: usize = cell_count(&size);
        let mut seen: Vec<bool> = Vec::new();
        while seen.len() < count
            invariant
                seen.len() <= count,
                forall|i: int| 0 <= i < seen.len() ==> !seen[i],
            decreases count - seen.len(),
        {
            seen.push(false);
        }
        assert(seen@ =~= unmarked(size));
        let mut queue: VecDeque<Location> = VecDeque::new();
        queue.push_back(start);
        BreadthFirst { size, direction: pick_bias(&direction), shape, queue, seen }
    }

    /// The position of the next visited cell, or `None` once the traversal is over.
    pub fn next(&mut self) -> (r: Option<usize>)
        requires
            old(self).well_formed(),
        ensures
            final(self).well_formed(),
            final(self).extent() == old(self).extent(),
            old(self).remaining().len() == 0 ==> r is None && final(self).remaining().len() == 0,
            old(self).remaining().len() > 0 ==> r == Some(
                cell_index(old(self).extent(), old(self).remaining()[0]) as usize,
            ) && final(self).remaining() == old(self).remaining().skip(1),
    {
        let origin = Location::zero();
        loop
            invariant
                self.well_formed(),
                self.size == old(self).size,
                self.remaining() == old(self).remaining(),
                origin == (Location { x: 0, y: 0 }),
            decreases self.queue@.len(),
        {
            let ghost before = *self;
            match self.queue.pop_front() {
                None => {
                    return None;
                },
                Some(location) => {
                    if location_within(&origin, &self.size, &location) {
                        proof {
                            lemma_cell_index_bounds(self.size, location);
                        }
                        let index: usize = location_to_index(&self.size, &location);
                        if !self.seen[index] && self.shape.contains(&location) {
                            self.seen.set(index, true);
                            let d = self.direction;
                            let turned = Location { x: -d.y, y: d.x };
                            let ahead = Location { x: location.x + d.x, y: location.y + d.y };
                            let aside = Location {
                                x: location.x + turned.x,
                                y: location.y + turned.y,
                            };
                            let back = Location { x: location.x - d.x, y: location.y - d.y };
                            let away = Location {
                                x: location.x - turned.x,
                                y: location.y - turned.y,
                            };
                            self.queue.push_back(ahead);
                            self.queue.push_back(aside);
                            self.queue.push_back(back);
                            self.queue.push_back(away);
                            proof {
                                assert(self.queue@ =~= before.queue@.skip(1) + neighbours(
                                    location,
                                    d,
                                ));
                            }
                            return Some(index);
                        }
                    }
                },
            }
        }
    }
}

/// The number of cells of a grid of the given size.
pub fn cell_count(size: &Location) -> (r: usize)
    requires
        0 <= size.x,
        0 <= size.y,
        area(*size) <= usize::MAX,
    ensures
        r == area(*size),
{
    let width: u64 = size.x as u64;
    let height: u64 = size.y as u64;
    assert(width * height <= 0x7fff_ffff * 0x7fff_ffff) by (nonlinear_arith)
        requires
            0 <= width <= 0x7fff_ffff,
            0 <= height <= 0x7fff_ffff,
    ;
    (width * height) as usize
}

/// The direction a traversal fans out along for a requested bias.
pub fn pick_bias(direction: &Location) -> (r: Location)
    ensures
        r == bias(*direction),
        r.is_unit(),
{
    let unit = (direction.x == 1 && direction.y == 0) || (direction.x == -1 && direction.y == 0)
        || (direction.x == 0 && direction.y == 1) || (direction.x == 0 && direction.y == -1);
    if unit {
        *direction
    } else {
        Location { x: 1, y: 0 }
    }
}

} // verus!
