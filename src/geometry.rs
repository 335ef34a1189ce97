use vstd::prelude::*;

verus! {

/// A point on the integer grid: `x` grows to the right, `y` grows upwards.
#[derive(Clone, Copy, Debug, PartialEq, Eq, Structural)]
pub struct Coordinate {
    pub x: i32,
    pub y: i32,
}

impl Coordinate {
    /// The coordinate `(x, y)`.
    pub fn new(x: i32, y: i32) -> (r: Coordinate)
        ensures
            r.x == x,
            r.y == y,
    {
        Coordinate { x, y }
    }

    /// Moves this coordinate to `(x, y)`.
    pub fn set(&mut self, x: i32, y: i32)
        ensures
            final(self).x == x,
            final(self).y == y,
    {
        self.x = x;
        self.y = y;
    }

    /// The coordinate as an `(x, y)` pair.
    pub fn as_tuple(&self) -> (r: (i32, i32))
        ensures
            r == (self.x, self.y),
    {
        (self.x, self.y)
    }
}

pub open spec fn lesser(a: int, b: int) -> int {
    if a <= b { a } else { b }
}

pub open spec fn greater(a: int, b: int) -> int {
    if a <= b { b } else { a }
}

/// Whether `(x, y)` lies in the closed box with opposite corners `(x0, y0)`
/// and `(x1, y1)`, whichever two opposite corners they are.
pub open spec fn in_rect(x0: int, y0: int, x1: int, y1: int, x: int, y: int) -> bool {
    &&& lesser(x0, x1) <= x <= greater(x0, x1)
    &&& lesser(y0, y1) <= y <= greater(y0, y1)
}

/// Whether `(x, y)` lies in the closed box spanned by the corners `a` and `b`.
pub open spec fn in_box(a: Coordinate, b: Coordinate, x: int, y: int) -> bool {
    in_rect(a.x as int, a.y as int, b.x as int, b.y as int, x, y)
}

/// Given two opposite corners of a box, in any order, returns its bottom-left
/// and its top-right corner.
pub fn sort_coordinates(coord_one: Coordinate, coord_two: Coordinate) -> (r: [Coordinate; 2])
    ensures
        r[0].x == lesser(coord_one.x as int, coord_two.x as int),
        r[0].y == lesser(coord_one.y as int, coord_two.y as int),
        r[1].x == greater(coord_one.x as int, coord_two.x as int),
        r[1].y == greater(coord_one.y as int, coord_two.y as int),
{
    if coord_one.x > coord_two.x && coord_one.y > coord_two.y {
        [coord_two, coord_one]
    } else if coord_one.x > coord_two.x && coord_one.y <= coord_two.y {
        [Coordinate::new(coord_two.x, coord_one.y), Coordinate::new(coord_one.x, coord_two.y)]
    } else if coord_one.x <= coord_two.x && coord_one.y > coord_two.y {
        [Coordinate::new(coord_one.x, coord_two.y), Coordinate::new(coord_two.x, coord_one.y)]
    } else {
        [coord_one, coord_two]
    }
}

/// The bottom-left corner that `sort_coordinates` returns is below and to the
/// left of the top-right one, and the two corners it returns span the same
/// box as the two it was given: swapping the inputs changes nothing, and
/// each input's x and y are among the result's.
pub proof fn lemma_sorted_corners(a: Coordinate, b: Coordinate)
    ensures
        lesser(a.x as int, b.x as int) <= greater(a.x as int, b.x as int),
        lesser(a.y as int, b.y as int) <= greater(a.y as int, b.y as int),
        lesser(a.x as int, b.x as int) == lesser(b.x as int, a.x as int),
        greater(a.x as int, b.x as int) == greater(b.x as int, a.x as int),
        lesser(a.y as int, b.y as int) == lesser(b.y as int, a.y as int),
        greater(a.y as int, b.y as int) == greater(b.y as int, a.y as int),
        (a.x == lesser(a.x as int, b.x as int) && b.x == greater(a.x as int, b.x as int)) || (
        b.x == lesser(a.x as int, b.x as int) && a.x == greater(a.x as int, b.x as int)),
        (a.y == lesser(a.y as int, b.y as int) && b.y == greater(a.y as int, b.y as int)) || (
        b.y == lesser(a.y as int, b.y as int) && a.y == greater(a.y as int, b.y as int)),
        forall|x: int, y: int| in_box(a, b, x, y) == in_box(b, a, x, y),
{
}

} // verus!
