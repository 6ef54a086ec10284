use grid_tactics::astar::a_star;
use grid_tactics::astar::heuristic;
use grid_tactics::astar::limit_steps;
use grid_tactics::astar::reached;
use grid_tactics::astar::route_of;
use grid_tactics::astar::stop_before;
use grid_tactics::astar::successors;
use grid_tactics::grid::Entity;
use grid_tactics::grid::EntityKind;
use grid_tactics::grid::Grid;
use grid_tactics::grid::GridLocation;
use grid_tactics::location::Location;

fn line(n: i32) -> Vec<Location> {
    (0..n).map(|x| Location::new(x, 0)).collect()
}

fn is_step(a: &Location, b: &Location) -> bool {
    (a.x - b.x).abs() + (a.y - b.y).abs() == 1
}

#[test]
fn limit_steps_keeps_the_start_and_that_many_moves() {
    assert_eq!(limit_steps(line(5), 0), line(1));
    assert_eq!(limit_steps(line(5), 3), line(4));
    assert_eq!(limit_steps(line(5), 4), line(5));
    assert_eq!(limit_steps(line(5), 5), line(5));
    assert_eq!(limit_steps(line(5), usize::MAX), line(5));
    assert_eq!(limit_steps(Vec::new(), 3), Vec::new());
    assert_eq!(limit_steps(Vec::new(), 0), Vec::new());
}

#[test]
fn stop_before_drops_only_a_last_cell_that_is_the_goal() {
    assert_eq!(stop_before(line(3), &Location::new(2, 0)), line(2));
    assert_eq!(stop_before(line(3), &Location::new(1, 0)), line(3));
    assert_eq!(stop_before(line(3), &Location::new(9, 9)), line(3));
    assert_eq!(stop_before(line(1), &Location::new(0, 0)), Vec::new());
    assert_eq!(stop_before(Vec::new(), &Location::new(0, 0)), Vec::new());
}

#[test]
fn route_of_turns_pairs_into_locations() {
    assert_eq!(route_of(None), Vec::new());
    assert_eq!(
        route_of(Some(vec![(0, 0), (0, 1), (-1, 1)])),
        vec![Location::new(0, 0), Location::new(0, 1), Location::new(-1, 1)]
    );
    assert_eq!(route_of(Some(Vec::new())), Vec::new());
}

#[test]
fn successors_are_the_open_neighbours_on_the_grid() {
    let size = Location::new(3, 3);
    let mut open = vec![true; 9];
    let far = (9, 9);
    assert_eq!(
        successors(&size, &open, &(1, 1), &far),
        vec![((2, 1), 1), ((0, 1), 1), ((1, 2), 1), ((1, 0), 1)]
    );
    assert_eq!(successors(&size, &open, &(0, 0), &far), vec![((1, 0), 1), ((0, 1), 1)]);
    assert_eq!(successors(&size, &open, &(2, 2), &far), vec![((1, 2), 1), ((2, 1), 1)]);
    open[5] = false;
    open[7] = false;
    assert_eq!(successors(&size, &open, &(1, 1), &far), vec![((0, 1), 1), ((1, 0), 1)]);
    // The goal may be entered though it is not open.
    assert_eq!(
        successors(&size, &open, &(1, 1), &(2, 1)),
        vec![((2, 1), 1), ((0, 1), 1), ((1, 0), 1)]
    );
    // From outside only the cells on the grid are reached.
    assert_eq!(successors(&size, &open, &(-1, 0), &far), vec![((0, 0), 1)]);
    assert_eq!(successors(&size, &open, &(5, 5), &far), Vec::new());
    assert_eq!(successors(&size, &open, &(i32::MAX, i32::MIN), &far), Vec::new());
}

#[test]
fn heuristic_is_the_squared_distance() {
    assert_eq!(heuristic(&(0, 0), &(3, 4)), 25);
    assert_eq!(heuristic(&(3, 4), &(0, 0)), 25);
    assert_eq!(heuristic(&(-2, 5), &(-2, 5)), 0);
    assert_eq!(heuristic(&(1, 1), &(2, 1)), 1);
    assert_eq!(
        heuristic(&(i32::MIN, i32::MIN), &(i32::MAX, i32::MAX)),
        2 * 4294967295u128 * 4294967295u128
    );
}

#[test]
fn reached_compares_both_components() {
    assert!(reached(&(1, 2), &(1, 2)));
    assert!(!reached(&(1, 2), &(2, 1)));
    assert!(!reached(&(1, 2), &(1, 3)));
}

#[test]
fn a_star_over_a_mask() {
    let size = Location::new(3, 3);
    // A wall in the middle column with a gap at the bottom.
    let open = vec![true, false, true, true, false, true, true, true, true];
    let path = a_star(&size, &open, &Location::new(0, 0), &Location::new(2, 0));
    assert_eq!(
        path,
        vec![
            Location::new(0, 0),
            Location::new(0, 1),
            Location::new(0, 2),
            Location::new(1, 2),
            Location::new(2, 2),
            Location::new(2, 1),
            Location::new(2, 0),
        ]
    );
    let closed = vec![true, false, true, true, false, true, true, false, true];
    assert_eq!(a_star(&size, &closed, &Location::new(0, 0), &Location::new(2, 0)), Vec::new());
}

#[test]
fn a_star_to_a_goal_off_the_grid_is_empty() {
    let grid = Grid::new(Location::new(3, 3));
    let path = grid.a_star_to(&EntityKind::Unit, &Location::new(0, 0), &Location::new(3, 0), 10);
    assert!(path.is_empty());
}

#[test]
fn a_star_may_end_on_an_occupied_goal() {
    let mut grid = Grid::new(Location::new(4, 1));
    assert!(grid.set_entity(&EntityKind::Unit, &Location::new(3, 0), Entity::from_bits(9)));
    let path = grid.a_star_to(&EntityKind::Unit, &Location::new(0, 0), &Location::new(3, 0), 10);
    assert_eq!(path, line(4));
}

#[test]
fn a_star_path_moves_one_step_at_a_time() {
    let mut grid = Grid::new(Location::new(6, 6));
    for y in 0..5 {
        assert!(grid.set_entity(&EntityKind::Unit, &Location::new(3, y), Entity::from_bits(1)));
    }
    let path = grid.a_star_to(&EntityKind::Unit, &Location::new(0, 0), &Location::new(5, 0), 100);
    assert_eq!(path.first(), Some(&Location::new(0, 0)));
    assert_eq!(path.last(), Some(&Location::new(5, 0)));
    for pair in path.windows(2) {
        assert!(is_step(&pair[0], &pair[1]));
    }
    for (i, a) in path.iter().enumerate() {
        for b in path.iter().skip(i + 1) {
            assert_ne!(a, b);
        }
    }
    assert!(path.iter().all(|p| !(p.x == 3 && p.y < 5)));
}

#[test]
fn a_star_next_to_stops_before_the_goal() {
    let mut grid = Grid::new(Location::new(5, 1));
    assert!(grid.set_entity(&EntityKind::Unit, &Location::new(4, 0), Entity::from_bits(9)));
    let from = Location::new(0, 0);
    let to = Location::new(4, 0);
    assert_eq!(grid.a_star_next_to(&EntityKind::Unit, &from, &to, 100), line(4));
    assert_eq!(grid.a_star_next_to(&EntityKind::Unit, &from, &to, 4), line(4));
    assert_eq!(grid.a_star_next_to(&EntityKind::Unit, &from, &to, 3), line(4));
    assert_eq!(grid.a_star_next_to(&EntityKind::Unit, &from, &to, 2), line(3));
    assert_eq!(grid.a_star_next_to(&EntityKind::Unit, &from, &to, 0), line(1));
    assert_eq!(grid.a_star_next_to(&EntityKind::Unit, &from, &from, 5), Vec::new());
}

#[test]
fn a_star_move_walks_towards_the_target() {
    let mut grid = Grid::new(Location::new(5, 1));
    let mover = Entity::from_bits(1);
    let target = Entity::from_bits(2);
    assert!(grid.set_entity(&EntityKind::Unit, &Location::new(0, 0), mover));
    assert!(grid.set_entity(&EntityKind::Unit, &Location::new(4, 0), target));
    let mut place = GridLocation::new(Location::new(0, 0), EntityKind::Unit);
    assert_eq!(grid.a_star_move(&mut place, &Location::new(4, 0), 2), Some(mover));
    assert_eq!(*place.location(), Location::new(2, 0));
    assert_eq!(grid.get_entity(&EntityKind::Unit, &Location::new(0, 0)), None);
    assert_eq!(grid.get_entity(&EntityKind::Unit, &Location::new(2, 0)), Some(mover));
    assert_eq!(grid.a_star_move(&mut place, &Location::new(4, 0), 2), Some(mover));
    assert_eq!(*place.location(), Location::new(3, 0));
    // Next to the target nothing moves any more.
    assert_eq!(grid.a_star_move(&mut place, &Location::new(4, 0), 2), None);
    assert_eq!(*place.location(), Location::new(3, 0));
    assert_eq!(grid.get_entity(&EntityKind::Unit, &Location::new(3, 0)), Some(mover));
    assert_eq!(grid.get_entity(&EntityKind::Unit, &Location::new(4, 0)), Some(target));
}

#[test]
fn a_star_move_without_a_route_or_steps_does_nothing() {
    let mut grid = Grid::new(Location::new(5, 1));
    let mover = Entity::from_bits(1);
    assert!(grid.set_entity(&EntityKind::Unit, &Location::new(0, 0), mover));
    assert!(grid.set_entity(&EntityKind::Unit, &Location::new(2, 0), Entity::from_bits(3)));
    let mut place = GridLocation::new(Location::new(0, 0), EntityKind::Unit);
    assert_eq!(grid.a_star_move(&mut place, &Location::new(4, 0), 3), None);
    assert_eq!(grid.a_star_move(&mut place, &Location::new(1, 0), 0), None);
    assert_eq!(*place.location(), Location::new(0, 0));
    assert_eq!(grid.get_entity(&EntityKind::Unit, &Location::new(0, 0)), Some(mover));
}
