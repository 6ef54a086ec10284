use grid_tactics::grid::Entity;
use grid_tactics::grid::EntityKind;
use grid_tactics::grid::Grid;
use grid_tactics::location::Location;

#[test]
fn test_a_star_to_empty_grid() {
    let grid = Grid::new(Location::new(5, 5));
    let path = grid.a_star_to(
        &EntityKind::Unit,
        &Location::new(0, 0),
        &Location::new(4, 4),
        100,
    );

    assert!(!path.is_empty());
    assert_eq!(path.first(), Some(&Location::new(0, 0)));
    assert_eq!(path.last(), Some(&Location::new(4, 4)));
    // Manhattan distance is 8, so path length should be 9
    assert_eq!(path.len(), 9);
}

#[test]
fn test_a_star_to_with_step_limit() {
    let grid = Grid::new(Location::new(5, 5));
    let path = grid.a_star_to(&EntityKind::Unit, &Location::new(0, 0), &Location::new(4, 4), 3);

    // steps + 1 = 4 positions (start + 3 moves)
    assert_eq!(path.len(), 4);
    assert_eq!(path.first(), Some(&Location::new(0, 0)));
}

#[test]
fn test_a_star_to_same_location() {
    let grid = Grid::new(Location::new(5, 5));
    let path = grid.a_star_to(
        &EntityKind::Unit,
        &Location::new(2, 2),
        &Location::new(2, 2),
        100,
    );

    assert_eq!(path.len(), 1);
    assert_eq!(path[0], Location::new(2, 2));
}

#[test]
fn test_a_star_to_blocked_by_units() {
    let mut grid = Grid::new(Location::new(5, 5));
    let blocker = Entity::from_bits(1);

    // Block a vertical line at x=2
    for y in 0..5 {
        grid.set_entity(&EntityKind::Unit, &Location::new(2, y), blocker);
    }

    // Try to path from left to right - should fail (no path)
    let path = grid.a_star_to(
        &EntityKind::Unit,
        &Location::new(0, 2),
        &Location::new(4, 2),
        100,
    );

    assert!(path.is_empty());
}

#[test]
fn test_a_star_to_tiles_dont_block_units() {
    let mut grid = Grid::new(Location::new(5, 5));
    let tile = Entity::from_bits(1);

    // Block with tiles at x=2
    for y in 0..5 {
        grid.set_entity(&EntityKind::Tile, &Location::new(2, y), tile);
    }

    // Units should still be able to path through tiles
    let path = grid.a_star_to(
        &EntityKind::Unit,
        &Location::new(0, 2),
        &Location::new(4, 2),
        100,
    );

    assert!(!path.is_empty());
    assert_eq!(path.first(), Some(&Location::new(0, 2)));
    assert_eq!(path.last(), Some(&Location::new(4, 2)));
}

#[test]
fn test_a_star_to_units_dont_block_tiles() {
    let mut grid = Grid::new(Location::new(5, 5));
    let unit = Entity::from_bits(1);

    // Block with units at x=2
    for y in 0..5 {
        grid.set_entity(&EntityKind::Unit, &Location::new(2, y), unit);
    }

    // Tiles should still be able to path through units
    let path = grid.a_star_to(
        &EntityKind::Tile,
        &Location::new(0, 2),
        &Location::new(4, 2),
        100,
    );

    assert!(!path.is_empty());
    assert_eq!(path.first(), Some(&Location::new(0, 2)));
    assert_eq!(path.last(), Some(&Location::new(4, 2)));
}

#[test]
fn test_a_star_to_path_around_obstacle() {
    let mut grid = Grid::new(Location::new(5, 5));
    let blocker = Entity::from_bits(1);

    // Create a partial wall at x=2, leaving a gap at y=0
    for y in 1..5 {
        grid.set_entity(&EntityKind::Unit, &Location::new(2, y), blocker);
    }

    let path = grid.a_star_to(
        &EntityKind::Unit,
        &Location::new(0, 2),
        &Location::new(4, 2),
        100,
    );

    // Should find a path going around through y=0
    assert!(!path.is_empty());
    assert_eq!(path.first(), Some(&Location::new(0, 2)));
    assert_eq!(path.last(), Some(&Location::new(4, 2)));
    // Path should avoid the blocked cells
    assert!(path.iter().all(|p| !(p.x == 2 && p.y >= 1)));
}

#[test]
fn test_a_star_to_zero_steps() {
    let grid = Grid::new(Location::new(5, 5));
    let path = grid.a_star_to(&EntityKind::Unit, &Location::new(0, 0), &Location::new(4, 4), 0);

    // With 0 steps, should only include the starting position
    assert_eq!(path.len(), 1);
    assert_eq!(path[0], Location::new(0, 0));
}

#[test]
fn test_a_star_to_adjacent() {
    let grid = Grid::new(Location::new(5, 5));
    let path = grid.a_star_to(
        &EntityKind::Unit,
        &Location::new(2, 2),
        &Location::new(2, 3),
        100,
    );

    assert_eq!(path.len(), 2);
    assert_eq!(path[0], Location::new(2, 2));
    assert_eq!(path[1], Location::new(2, 3));
}
