use vstd::prelude::*;

verus! {

/// One axis of a grid coordinate.
pub type Coordinate = isize;

/// An integer grid coordinate.
#[derive(Debug, PartialEq, Eq, Structural, Clone, Copy)]
pub struct Point {
    pub x: Coordinate,
    pub y: Coordinate,
}

impl Point {
    /// Builds a point from an `(x, y)` pair.
    pub fn new_from_tuple(pair: (Coordinate, Coordinate)) -> (r: Point)
        ensures
            r.x == pair.0,
            r.y == pair.1,
    {
        Point { x: pair.0, y: pair.1 }
    }
}

} // verus!
