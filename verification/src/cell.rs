//! Grid cells and movement directions.

use vstd::prelude::*;

verus! {

/// One square of the grid, identified by its integer coordinates.
#[derive(Clone, Copy, PartialEq, Eq, Structural, Debug)]
pub struct Cell {
    pub x: i32,
    pub y: i32,
}

/// The heading of the snake; each direction maps to a unit cell delta.
#[derive(Clone, Copy, PartialEq, Eq, Structural, Debug)]
pub enum Direction {
    Up,
    Down,
    Left,
    Right,
}

/// Horizontal component of the unit delta for a direction.
pub open spec fn delta_x(d: Direction) -> int {
    match d {
        Direction::Left => -1,
        Direction::Right => 1,
        Direction::Up => 0,
        Direction::Down => 0,
    }
}

/// Vertical component of the unit delta for a direction.
pub open spec fn delta_y(d: Direction) -> int {
    match d {
        Direction::Left => 0,
        Direction::Right => 0,
        Direction::Up => -1,
        Direction::Down => 1,
    }
}

/// Whether a cell lies inside a `width` by `height` grid.
pub open spec fn in_bounds(c: Cell, width: int, height: int) -> bool {
    0 <= c.x < width && 0 <= c.y < height
}

/// The unit delta of a direction, as executable coordinates.
pub fn delta(d: Direction) -> (r: (i32, i32))
    ensures
        r.0 == delta_x(d),
        r.1 == delta_y(d),
{
    match d {
        Direction::Left => (-1, 0),
        Direction::Right => (1, 0),
        Direction::Up => (0, -1),
        Direction::Down => (0, 1),
    }
}

} // verus!
