//! A tactics battle core: a bounded two-dimensional occupancy grid with
//! independent entity channels, direction-biased breadth-first search,
//! step-limited A* routing and a speed-driven turn scheduler.
//!
//! Beside the core stand a general grid of optional values, a seeded source of
//! random choices and the repair of transparent pixels in sprite images.

pub mod astar;
pub mod breadth;
pub mod cords;
pub mod grid;
pub mod location;
pub mod pixels;
pub mod random;
pub mod selection;
pub mod storage;
pub mod turn;
