//! Shortest-route search on a grid, with unit step cost and squared Euclidean distance as the
//! estimate of the remaining cost.
//!
//! The search itself is `pathfinding::prelude::astar`. This module supplies what it is run with
//! (the successors of a cell, the estimate, the goal test) and what is done with its answer.

use vstd::prelude::*;
use crate::cords::area;
use crate::cords::cell_index;
use crate::cords::lemma_cell_index_bounds;
use crate::cords::location_to_index;
use crate::cords::on_grid;
use crate::location::Location;

verus! {

/// The coordinate that a pair of components stands for.
pub open spec fn point(t: (i32, i32)) -> Location {
    Location { x: t.0, y: t.1 }
}

/// The coordinates that a sequence of pairs stands for.
pub open spec fn points(s: Seq<(i32, i32)>) -> Seq<Location> {
    s.map_values(|t: (i32, i32)| point(t))
}

/// Whether a route may enter `location`: it lies on the grid, and is the goal or an open cell.
pub open spec fn passable(size: Location, open: Seq<bool>, goal: Location, location: Location) -> bool {
    on_grid(size, location) && (location == goal || open[cell_index(size, location)])
}

/// Whether the move from `path[i]` to `path[i + 1]` is one axis-aligned step into a passable
/// cell.
pub open spec fn step_allowed(
    size: Location,
    open: Seq<bool>,
    goal: Location,
    path: Seq<Location>,
    i: int,
) -> bool {
    path[i].adjacent(path[i + 1]) && passable(size, open, goal, path[i + 1])
}

/// Whether `path` leads from `start` to `goal` by allowed steps.
pub open spec fn is_walk(
    size: Location,
    open: Seq<bool>,
    start: Location,
    goal: Location,
    path: Seq<Location>,
) -> bool {
    &&& path.len() >= 1
    &&& path[0] == start
    &&& path.last() == goal
    &&& forall|i: int| 0 <= i < path.len() - 1 ==> #[trigger] step_allowed(size, open, goal, path, i)
}

/// Whether `path` is a walk from `start` to `goal` that enters no cell twice.
pub open spec fn is_route(
    size: Location,
    open: Seq<bool>,
    start: Location,
    goal: Location,
    path: Seq<Location>,
) -> bool {
    is_walk(size, open, start, goal, path) && path.no_duplicates()
}

/// Whether `full` answers the search from `start` to `goal`: a route, or empty where no walk
/// leads from `start` to `goal` at all.
pub open spec fn answers(
    size: Location,
    open: Seq<bool>,
    start: Location,
    goal: Location,
    full: Seq<Location>,
) -> bool {
    if full.len() > 0 {
        is_route(size, open, start, goal, full)
    } else {
        forall|path: Seq<Location>| !#[trigger] is_walk(size, open, start, goal, path)
    }
}

/// The number of axis-aligned steps between two coordinates.
pub open spec fn manhattan(a: Location, b: Location) -> int {
    (vstd::math::abs(a.x - b.x) + vstd::math::abs(a.y - b.y)) as int
}

/// Adjacent coordinates are exactly one axis-aligned step apart.
pub proof fn lemma_adjacent_step(a: Location, b: Location)
    requires
        a.adjacent(b),
    ensures
        manhattan(a, b) == 1,
{
    let dx = a.x - b.x;
    let dy = a.y - b.y;
    assert(-1 <= dx <= 1 && -1 <= dy <= 1 && (dx == 0 || dy == 0) && (dx != 0 || dy != 0))
        by (nonlinear_arith)
        requires
            dx * dx + dy * dy == 1,
    ;
}

/// The first `n + 1` cells of a walk lead at most `n` steps away from its start.
proof fn lemma_walk_reach(
    size: Location,
    open: Seq<bool>,
    start: Location,
    goal: Location,
    path: Seq<Location>,
    n: int,
)
    requires
        is_walk(size, open, start, goal, path),
        0 <= n < path.len(),
    ensures
        manhattan(start, path[n]) <= n,
    decreases n,
{
    if n > 0 {
        lemma_walk_reach(size, open, start, goal, path, n - 1);
        assert(step_allowed(size, open, goal, path, n - 1));
        lemma_adjacent_step(path[n - 1], path[n]);
    }
}

/// A walk holds at least one cell more than the number of steps between its ends.
pub proof fn lemma_walk_length(
    size: Location,
    open: Seq<bool>,
    start: Location,
    goal: Location,
    path: Seq<Location>,
)
    requires
        is_walk(size, open, start, goal, path),
    ensures
        path.len() >= manhattan(start, goal) + 1,
{
    lemma_walk_reach(size, open, start, goal, path, path.len() - 1);
}

/// A route cut down to `steps` moves is the route's first `steps + 1` cells, or all of them
/// where it has no more. It begins at the start; with no move allowed it is the start alone;
/// and with no more moves allowed than there are steps between start and goal it holds exactly
/// `steps + 1` cells.
pub proof fn lemma_limited_route(
    size: Location,
    open: Seq<bool>,
    start: Location,
    goal: Location,
    path: Seq<Location>,
    steps: nat,
)
    requires
        is_walk(size, open, start, goal, path),
    ensures
        limited(path, steps).len() == if path.len() <= steps + 1 {
            path.len()
        } else {
            steps + 1
        },
        limited(path, steps) == path.take(limited(path, steps).len() as int),
        limited(path, steps)[0] == start,
        steps == 0 ==> limited(path, steps) == seq![start],
        steps <= manhattan(start, goal) ==> limited(path, steps).len() == steps + 1,
{
    lemma_walk_length(size, open, start, goal, path);
}

/// A route that stops before the goal never holds the goal, and where the whole route is
/// within the allowed moves it ends one step from the goal.
pub proof fn lemma_stops_short(
    size: Location,
    open: Seq<bool>,
    start: Location,
    goal: Location,
    path: Seq<Location>,
    steps: nat,
)
    requires
        is_route(size, open, start, goal, path),
    ensures
        !short_of(limited(path, steps), goal).contains(goal),
        path.len() >= 2 && path.len() <= steps + 1 ==> short_of(limited(path, steps), goal).last().adjacent(
            goal,
        ),
{
    let cut = limited(path, steps);
    let kept = short_of(cut, goal);
    assert forall|i: int| 0 <= i < kept.len() implies kept[i] != goal by {
        // The goal is the last cell of the route and stands nowhere else in it.
        assert(kept[i] == path[i] && path[path.len() - 1] == goal);
    }
    if path.len() >= 2 && path.len() <= steps + 1 {
        assert(step_allowed(size, open, goal, path, path.len() - 2));
        let a = path[path.len() - 2];
        assert(a.distance_squared_to(goal) == goal.distance_squared_to(a)) by (nonlinear_arith)
            requires
                a.distance_squared_to(goal) == (a.x - goal.x) * (a.x - goal.x) + (a.y - goal.y) * (a.y
                    - goal.y),
                goal.distance_squared_to(a) == (goal.x - a.x) * (goal.x - a.x) + (goal.y - a.y) * (
                goal.y - a.y),
        ;
    }
}

/// The successor that lies `(dx, dy)` from `node`, with its step cost, where a route may enter
/// it.
pub open spec fn expansion(
    size: Location,
    open: Seq<bool>,
    goal: Location,
    node: Location,
    dx: int,
    dy: int,
) -> Seq<((i32, i32), u128)> {
    let x = node.x + dx;
    let y = node.y + dy;
    if i32::MIN <= x <= i32::MAX && i32::MIN <= y <= i32::MAX && passable(
        size,
        open,
        goal,
        Location { x: x as i32, y: y as i32 },
    ) {
        seq![((x as i32, y as i32), 1u128)]
    } else {
        Seq::empty()
    }
}

/// The successors of `node`, in the order `+X`, `-X`, `+Y`, `-Y`.
pub open spec fn expansions(size: Location, open: Seq<bool>, goal: Location, node: Location) -> Seq<
    ((i32, i32), u128),
> {
    expansion(size, open, goal, node, 1, 0) + expansion(size, open, goal, node, -1, 0) + expansion(
        size,
        open,
        goal,
        node,
        0,
        1,
    ) + expansion(size, open, goal, node, 0, -1)
}

/// Appends to `out` the successor that lies `(dx, dy)` from `node`, where a route may enter it.
fn push_expansion(
    out: &mut Vec<((i32, i32), u128)>,
    size: &Location,
    open: &Vec<bool>,
    node: &(i32, i32),
    goal: &(i32, i32),
    dx: i32,
    dy: i32,
)
    requires
        0 <= size.x,
        0 <= size.y,
        open.len() == area(*size),
        -1 <= dx <= 1,
        -1 <= dy <= 1,
    ensures
        final(out)@ == old(out)@ + expansion(*size, open@, point(*goal), point(*node), dx as int, dy as int),
{
    let x: i64 = node.0 as i64 + dx as i64;
    let y: i64 = node.1 as i64 + dy as i64;
    if 0 <= x && x < size.x as i64 && 0 <= y && y < size.y as i64 {
        let next = Location { x: x as i32, y: y as i32 };
        proof {
            lemma_cell_index_bounds(*size, next);
        }
        let index: usize = location_to_index(size, &next);
        if (next.x == goal.0 && next.y == goal.1) || open[index] {
            out.push(((next.x, next.y), 1u128));
        }
    }
}

/// The cells a route may enter in one step from `node`, each with the step cost 1.
pub fn successors(size: &Location, open: &Vec<bool>, node: &(i32, i32), goal: &(i32, i32)) -> (r: Vec<
    ((i32, i32), u128),
>)
    requires
        0 <= size.x,
        0 <= size.y,
        open.len() == area(*size),
    ensures
        r@ == expansions(*size, open@, point(*goal), point(*node)),
{
    let mut out: Vec<((i32, i32), u128)> = Vec::new();
    push_expansion(&mut out, size, open, node, goal, 1, 0);
    push_expansion(&mut out, size, open, node, goal, -1, 0);
    push_expansion(&mut out, size, open, node, goal, 0, 1);
    push_expansion(&mut out, size, open, node, goal, 0, -1);
    out
}

/// The estimate of the cost that remains from `node`: its squared Euclidean distance to the
/// goal.
pub fn heuristic(node: &(i32, i32), goal: &(i32, i32)) -> (r: u128)
    ensures
        r == point(*node).distance_squared_to(point(*goal)),
{
    let here = Location { x: node.0, y: node.1 };
    let there = Location { x: goal.0, y: goal.1 };
    here.distance_squared(&there)
}

/// Whether `node` is the goal.
pub fn reached(node: &(i32, i32), goal: &(i32, i32)) -> (r: bool)
    ensures
        r == (*node == *goal),
{
    node.0 == goal.0 && node.1 == goal.1
}

/// What `pathfinding::prelude::astar` returns when it is run from `start` with the successors,
/// the estimate and the goal test of this module: the cells of the route it found, or `None`.
pub uninterp spec fn astar_outcome(
    size: Location,
    open: Seq<bool>,
    start: (i32, i32),
    goal: (i32, i32),
) -> Option<Seq<(i32, i32)>>;

/// Runs `pathfinding::prelude::astar` from `start`, with `successors` for the successor
/// function, `heuristic` for the estimate and `reached` for the goal test, and hands back the
/// route without its cost.
///
/// Not proved, taken from the search's documentation and source: the answer is a function of
/// the arguments; a route that comes back starts at `start`, ends at the goal, moves only
/// along successor steps and holds no cell twice; and `None` comes back only when no sequence
/// of successor steps leads from `start` to the goal. Every successor lies on the grid, so the
/// search ends.
#[verifier::external_body]
fn astar_search(size: &Location, open: &Vec<bool>, start: &(i32, i32), goal: &(i32, i32)) -> (r: Option<
    Vec<(i32, i32)>,
>)
    requires
        0 <= size.x,
        0 <= size.y,
        open.len() == area(*size),
    ensures
        match r {
            Some(path) => astar_outcome(*size, open@, *start, *goal) == Some(path@),
            None => astar_outcome(*size, open@, *start, *goal) is None,
        },
        r matches Some(path) ==> is_route(*size, open@, point(*start), point(*goal), points(path@)),
        r is None ==> forall|path: Seq<Location>|
            !#[trigger] is_walk(*size, open@, point(*start), point(*goal), path),
{
    let found = pathfinding::prelude::astar(
        start,
        |node| successors(size, open, node, goal),
        |node| heuristic(node, goal),
        |node| reached(node, goal),
    );
    match found {
        Some((path, _)) => Some(path),
        None => None,
    }
}

/// The route that a search outcome stands for: its cells, or nothing where none was found.
pub open spec fn route(outcome: Option<Seq<(i32, i32)>>) -> Seq<Location> {
    match outcome {
        Some(path) => points(path),
        None => Seq::empty(),
    }
}

/// The route that the search finds from `start` to `goal`, empty where there is none.
pub open spec fn planned(size: Location, open: Seq<bool>, start: Location, goal: Location) -> Seq<
    Location,
> {
    route(astar_outcome(size, open, (start.x, start.y), (goal.x, goal.y)))
}

/// A route cut down to its start and at most `steps` moves.
pub open spec fn limited(path: Seq<Location>, steps: nat) -> Seq<Location> {
    if path.len() > steps + 1 {
        path.take((steps + 1) as int)
    } else {
        path
    }
}

/// A route without its last cell where that cell is `goal`.
pub open spec fn short_of(path: Seq<Location>, goal: Location) -> Seq<Location> {
    if path.len() > 0 && path.last() == goal {
        path.drop_last()
    } else {
        path
    }
}

/// Turns a search outcome into a route: the cells found, or the empty route.
pub fn route_of(found: Option<Vec<(i32, i32)>>) -> (r: Vec<Location>)
    ensures
        r@ == route(
            match found {
                Some(path) => Some(path@),
                None => None,
            },
        ),
{
    let mut out: Vec<Location> = Vec::new();
    match found {
        Some(path) => {
            let mut i: usize = 0;
            while i < path.len()
                invariant
                    i <= path.len(),
                    out@ == points(path@.take(i as int)),
                decreases path.len() - i,
            {
                let pair = path[i];
                out.push(Location { x: pair.0, y: pair.1 });
                i = i + 1;
            }
        },
        None => {
        },
    }
    out
}

/// The route from `start` to `goal` over the open cells of a grid, as the search finds it: every
/// cell from `start` to `goal` inclusive, or the empty route where `goal` cannot be reached.
pub fn a_star(size: &Location, open: &Vec<bool>, start: &Location, goal: &Location) -> (r: Vec<Location>)
    requires
        0 <= size.x,
        0 <= size.y,
        open.len() == area(*size),
    ensures
        r@ == planned(*size, open@, *start, *goal),
        answers(*size, open@, *start, *goal, r@),
{
    let from = (start.x, start.y);
    let to = (goal.x, goal.y);
    let found = astar_search(size, open, &from, &to);
    proof {
        assert(point(from) == *start && point(to) == *goal);
    }
    route_of(found)
}

/// Cuts a route down to its start and at most `steps` moves.
pub fn limit_steps(path: Vec<Location>, steps: usize) -> (r: Vec<Location>)
    ensures
        r@ == limited(path@, steps as nat),
{
    let mut path = path;
    if steps < path.len() && steps + 1 < path.len() {
        path.truncate(steps + 1);
    }
    path
}

/// Drops the last cell of a route where that cell is `goal`.
pub fn stop_before(path: Vec<Location>, goal: &Location) -> (r: Vec<Location>)
    ensures
        r@ == short_of(path@, *goal),
{
    let mut path = path;
    let count: usize = path.len();
    if count > 0 {
        let last = path[count - 1];
        if last.x == goal.x && last.y == goal.y {
            path.pop();
        }
    }
    path
}

} // verus!
