//! Grid geometry: coordinates and the four cardinal directions.

use vstd::prelude::*;

verus! {

/// A point of the game grid, as the executable code stores it.
#[derive(Clone, Copy, Debug, PartialEq, Eq, Structural)]
pub struct Coordinate {
    pub x: i32,
    pub y: i32,
}

/// A direction an agent can move in.
#[derive(Clone, Copy, Debug, PartialEq, Eq, Structural)]
pub enum Direction {
    Up,
    Down,
    Left,
    Right,
}

/// A point of the unbounded mathematical plane; the model of a `Coordinate`.
pub ghost struct GridPoint {
    pub x: int,
    pub y: int,
}

impl View for Coordinate {
    type V = GridPoint;

    open spec fn view(&self) -> GridPoint {
        GridPoint { x: self.x as int, y: self.y as int }
    }
}

/// The unit offset of a direction: `Up` raises `y`, `Right` raises `x`.
pub open spec fn direction_offset(d: Direction) -> GridPoint {
    match d {
        Direction::Up => GridPoint { x: 0, y: 1 },
        Direction::Down => GridPoint { x: 0, y: -1 },
        Direction::Left => GridPoint { x: -1, y: 0 },
        Direction::Right => GridPoint { x: 1, y: 0 },
    }
}

/// The point one step away from `p` in direction `d`.
pub open spec fn spec_translate(p: GridPoint, d: Direction) -> GridPoint {
    GridPoint { x: p.x + direction_offset(d).x, y: p.y + direction_offset(d).y }
}

impl Coordinate {
    pub fn new(x: i32, y: i32) -> (c: Coordinate)
        ensures
            c@ == (GridPoint { x: x as int, y: y as int }),
    {
        Coordinate { x, y }
    }

    /// The neighbouring grid point in direction `d`.
    pub fn translate(self, d: Direction) -> (c: Coordinate)
        requires
            i32::MIN <= spec_translate(self@, d).x <= i32::MAX,
            i32::MIN <= spec_translate(self@, d).y <= i32::MAX,
        ensures
            c@ == spec_translate(self@, d),
    {
        match d {
            Direction::Up => Coordinate { x: self.x, y: self.y + 1 },
            Direction::Down => Coordinate { x: self.x, y: self.y - 1 },
            Direction::Left => Coordinate { x: self.x - 1, y: self.y },
            Direction::Right => Coordinate { x: self.x + 1, y: self.y },
        }
    }
}

} // verus!
