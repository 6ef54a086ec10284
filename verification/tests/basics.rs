use grid_tactics::breadth::cell_count;
use grid_tactics::breadth::pick_bias;
use grid_tactics::breadth::BreadthFirst;
use grid_tactics::cords::index_to_location;
use grid_tactics::cords::location_to_index;
use grid_tactics::cords::location_within;
use grid_tactics::cords::magnitude_fits;
use grid_tactics::location::Location;
use grid_tactics::random::RandomSource;
use grid_tactics::selection::random_in_box;
use grid_tactics::selection::wrap_into;
use grid_tactics::selection::Shape;

fn drain(mut walk: BreadthFirst) -> Vec<usize> {
    let mut out = Vec::new();
    while let Some(index) = walk.next() {
        out.push(index);
    }
    assert_eq!(walk.next(), None);
    out
}

#[test]
fn location_constructors() {
    assert_eq!(Location::new(3, -4), Location { x: 3, y: -4 });
    assert_eq!(Location::zero(), Location { x: 0, y: 0 });
    assert_ne!(Location::new(1, 2), Location::new(2, 1));
}

#[test]
fn location_distance_squared() {
    assert_eq!(Location::new(0, 0).distance_squared(&Location::new(3, 4)), 25);
    assert_eq!(Location::new(-1, -1).distance_squared(&Location::new(1, 1)), 8);
    assert_eq!(Location::new(5, 5).distance_squared(&Location::new(5, 5)), 0);
    assert_eq!(
        Location::new(i32::MIN, 0).distance_squared(&Location::new(i32::MAX, 0)),
        4294967295u128 * 4294967295u128
    );
}

#[test]
fn index_and_location_round_trip() {
    let size = Location::new(4, 3);
    assert_eq!(location_to_index(&size, &Location::new(0, 0)), 0);
    assert_eq!(location_to_index(&size, &Location::new(3, 0)), 3);
    assert_eq!(location_to_index(&size, &Location::new(0, 1)), 4);
    assert_eq!(location_to_index(&size, &Location::new(3, 2)), 11);
    assert_eq!(index_to_location(&size, 0), Location::new(0, 0));
    assert_eq!(index_to_location(&size, 7), Location::new(3, 1));
    assert_eq!(index_to_location(&size, 11), Location::new(3, 2));
    for index in 0..12 {
        let location = index_to_location(&size, index);
        assert_eq!(location_to_index(&size, &location), index);
    }
}

#[test]
fn location_within_is_half_open() {
    let start = Location::new(-1, 2);
    let end = Location::new(3, 4);
    assert!(location_within(&start, &end, &Location::new(-1, 2)));
    assert!(location_within(&start, &end, &Location::new(2, 3)));
    assert!(!location_within(&start, &end, &Location::new(3, 3)));
    assert!(!location_within(&start, &end, &Location::new(2, 4)));
    assert!(!location_within(&start, &end, &Location::new(-2, 2)));
    assert!(!location_within(&start, &end, &Location::new(0, 1)));
    assert!(!location_within(&end, &start, &Location::new(0, 3)));
}

#[test]
fn shape_all_contains_everything() {
    assert!(Shape::All.contains(&Location::new(0, 0)));
    assert!(Shape::All.contains(&Location::new(i32::MIN, i32::MAX)));
}

#[test]
fn shape_circle_is_inclusive() {
    let circle = Shape::Circle(Location::new(2, 2), 2);
    assert!(circle.contains(&Location::new(2, 2)));
    assert!(circle.contains(&Location::new(4, 2)));
    assert!(circle.contains(&Location::new(2, 0)));
    assert!(circle.contains(&Location::new(3, 3)));
    assert!(!circle.contains(&Location::new(4, 3)));
    assert!(!circle.contains(&Location::new(5, 2)));
    let point = Shape::Circle(Location::new(-1, -1), 0);
    assert!(point.contains(&Location::new(-1, -1)));
    assert!(!point.contains(&Location::new(-1, 0)));
    let huge = Shape::Circle(Location::new(i32::MIN, i32::MIN), u32::MAX);
    assert!(huge.contains(&Location::new(i32::MAX, i32::MIN)));
    assert!(!huge.contains(&Location::new(i32::MAX, i32::MAX)));
}

#[test]
fn shape_square_is_half_open() {
    let square = Shape::Square(Location::new(1, 1), Location::new(3, 4));
    assert!(square.contains(&Location::new(1, 1)));
    assert!(square.contains(&Location::new(2, 3)));
    assert!(!square.contains(&Location::new(3, 3)));
    assert!(!square.contains(&Location::new(2, 4)));
    assert!(!square.contains(&Location::new(0, 1)));
    let empty = Shape::Square(Location::new(3, 3), Location::new(3, 3));
    assert!(!empty.contains(&Location::new(3, 3)));
}

#[test]
fn wrap_into_counts_from_zero() {
    assert_eq!(wrap_into(7, 3), 1);
    assert_eq!(wrap_into(-7, 3), 2);
    assert_eq!(wrap_into(0, 5), 0);
    assert_eq!(wrap_into(-1, 5), 4);
    assert_eq!(wrap_into(i32::MIN, 1), 0);
    assert_eq!(wrap_into(i32::MIN, 10), i32::MIN.rem_euclid(10));
    assert_eq!(wrap_into(i32::MAX, i32::MAX), 0);
    assert_eq!(wrap_into(i32::MIN, i32::MAX), i32::MIN.rem_euclid(i32::MAX));
    for value in -50..50 {
        for width in 1..12 {
            assert_eq!(wrap_into(value, width), value.rem_euclid(width));
        }
    }
}

#[test]
fn random_in_box_stays_in_the_box() {
    let mut source = RandomSource::new(4242);
    let start = Location::new(-3, 10);
    let end = Location::new(2, 12);
    let mut seen = std::collections::HashSet::new();
    for _ in 0..400 {
        let location = random_in_box(&start, &end, &mut source);
        assert!(location_within(&start, &end, &location));
        seen.insert(location);
    }
    assert_eq!(seen.len(), 10);
}

#[test]
fn bias_defaults_to_plus_x() {
    assert_eq!(pick_bias(&Location::new(1, 0)), Location::new(1, 0));
    assert_eq!(pick_bias(&Location::new(-1, 0)), Location::new(-1, 0));
    assert_eq!(pick_bias(&Location::new(0, 1)), Location::new(0, 1));
    assert_eq!(pick_bias(&Location::new(0, -1)), Location::new(0, -1));
    assert_eq!(pick_bias(&Location::new(0, 0)), Location::new(1, 0));
    assert_eq!(pick_bias(&Location::new(1, 1)), Location::new(1, 0));
    assert_eq!(pick_bias(&Location::new(-2, 0)), Location::new(1, 0));
    assert_eq!(pick_bias(&Location::new(i32::MIN, i32::MIN)), Location::new(1, 0));
}

#[test]
fn cell_count_is_the_area() {
    assert_eq!(cell_count(&Location::new(4, 3)), 12);
    assert_eq!(cell_count(&Location::new(0, 3)), 0);
    assert_eq!(cell_count(&Location::new(1, 1)), 1);
}

#[test]
fn traversal_fans_out_along_each_direction() {
    let size = Location::new(3, 3);
    let center = Location::new(1, 1);
    assert_eq!(
        drain(BreadthFirst::new(size, center, Location::new(1, 0), Shape::All)),
        vec![4, 5, 7, 3, 1, 8, 2, 6, 0]
    );
    assert_eq!(
        drain(BreadthFirst::new(size, center, Location::new(0, 1), Shape::All)),
        vec![4, 7, 3, 1, 5, 6, 8, 0, 2]
    );
    assert_eq!(
        drain(BreadthFirst::new(size, center, Location::new(-1, 0), Shape::All)),
        vec![4, 3, 1, 5, 7, 0, 6, 2, 8]
    );
    assert_eq!(
        drain(BreadthFirst::new(size, center, Location::new(0, -1), Shape::All)),
        vec![4, 1, 5, 7, 3, 2, 0, 8, 6]
    );
    assert_eq!(
        drain(BreadthFirst::new(size, center, Location::new(0, 0), Shape::All)),
        vec![4, 5, 7, 3, 1, 8, 2, 6, 0]
    );
}

#[test]
fn traversal_is_confined_to_the_shape() {
    let size = Location::new(4, 4);
    let start = Location::new(1, 1);
    let east = Location::new(1, 0);
    let square = Shape::Square(Location::new(1, 1), Location::new(3, 3));
    assert_eq!(drain(BreadthFirst::new(size, start, east, square)), vec![5, 6, 9, 10]);
    let circle = Shape::Circle(Location::new(1, 1), 1);
    assert_eq!(drain(BreadthFirst::new(size, start, east, circle)), vec![5, 6, 9, 4, 1]);
    let elsewhere = Shape::Square(Location::new(2, 2), Location::new(4, 4));
    assert_eq!(drain(BreadthFirst::new(size, start, east, elsewhere)), Vec::<usize>::new());
}

#[test]
fn traversal_from_outside_or_of_nothing_is_empty() {
    let east = Location::new(1, 0);
    assert_eq!(
        drain(BreadthFirst::new(Location::new(3, 3), Location::new(3, 1), east, Shape::All)),
        Vec::<usize>::new()
    );
    assert_eq!(
        drain(BreadthFirst::new(Location::new(3, 3), Location::new(-1, -1), east, Shape::All)),
        Vec::<usize>::new()
    );
    assert_eq!(
        drain(BreadthFirst::new(Location::new(0, 0), Location::new(0, 0), east, Shape::All)),
        Vec::<usize>::new()
    );
}

#[test]
fn traversal_visits_every_cell_once() {
    let size = Location::new(7, 5);
    let mut visited = drain(BreadthFirst::new(size, Location::new(6, 4), Location::new(0, -1), Shape::All));
    assert_eq!(visited.len(), 35);
    assert_eq!(visited[0], 34);
    visited.sort();
    assert_eq!(visited, (0..35).collect::<Vec<usize>>());
}

#[test]
fn sizes_that_a_grid_can_have() {
    assert!(magnitude_fits(&Location::new(0, 0)));
    assert!(magnitude_fits(&Location::new(3, -3)));
    assert!(magnitude_fits(&Location::new(i32::MAX, 1)));
    assert!(magnitude_fits(&Location::new(-i32::MAX, -1)));
    assert!(magnitude_fits(&Location::new(46340, 46340)));
    assert!(!magnitude_fits(&Location::new(46341, 46341)));
    assert!(!magnitude_fits(&Location::new(i32::MAX, 2)));
    assert!(!magnitude_fits(&Location::new(i32::MIN, 0)));
    assert!(!magnitude_fits(&Location::new(0, i32::MIN)));
    assert!(magnitude_fits(&Location::new(0, i32::MAX)));
}
